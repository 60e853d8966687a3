//! The server's configuration, as read from `cow.toml`.

use vstd::prelude::*;

verus! {

/// One `[[server]]` section: its `location` table of settings.
#[derive(Debug)]
pub struct Server {
    pub location: Vec<(String, String)>,
}

/// The whole configuration.
#[derive(Debug)]
pub struct Cowconfig {
    pub debug: bool,
    pub port: String,
    pub address: String,
    pub root_dir: String,
    pub server: Vec<Server>,
}

/// The abstract value of a location table: (key, value) pairs.
pub open spec fn location_view(loc: Seq<(String, String)>) -> Seq<(Seq<char>, Seq<char>)> {
    loc.map_values(|e: (String, String)| (e.0@, e.1@))
}

/// The value stored under `key`; a table read from TOML holds each key once,
/// and should one occur twice the first is taken.
pub open spec fn location_get(loc: Seq<(Seq<char>, Seq<char>)>, key: Seq<char>) -> Option<
    Seq<char>,
>
    decreases loc.len(),
{
    if loc.len() == 0 {
        None
    } else if loc[0].0 == key {
        Some(loc[0].1)
    } else {
        location_get(loc.drop_first(), key)
    }
}

/// No key occurs twice in a location table, as in one read from TOML.
pub open spec fn location_keys_unique(loc: Seq<(Seq<char>, Seq<char>)>) -> bool {
    forall|i: int, j: int| 0 <= i < j < loc.len() ==> #[trigger] loc[i].0 != #[trigger] loc[j].0
}

proof fn lemma_location_get_unique(loc: Seq<(Seq<char>, Seq<char>)>, i: int)
    requires
        location_keys_unique(loc),
        0 <= i < loc.len(),
    ensures
        location_get(loc, loc[i].0) == Some(loc[i].1),
    decreases i,
{
    if i > 0 {
        let d = loc.drop_first();
        assert(loc[0].0 != loc[i].0);
        assert forall|a: int, b: int| 0 <= a < b < d.len() implies #[trigger] d[a].0
            != #[trigger] d[b].0 by {
            assert(d[a] == loc[a + 1] && d[b] == loc[b + 1]);
        }
        assert(d[i - 1] == loc[i]);
        lemma_location_get_unique(d, i - 1);
    }
}

/// In a table whose keys are unique, the setting under a key is the value
/// paired with it, wherever the pair stands.
pub proof fn law_setting_is_the_paired_value(loc: Seq<(Seq<char>, Seq<char>)>, i: int)
    requires
        location_keys_unique(loc),
        0 <= i < loc.len(),
    ensures
        location_get(loc, loc[i].0) == Some(loc[i].1),
{
    lemma_location_get_unique(loc, i);
}

impl Server {
    /// The value of the setting `key` in this location.
    pub open spec fn setting(&self, key: Seq<char>) -> Option<Seq<char>> {
        location_get(location_view(self.location@), key)
    }

    /// Looks up the setting `key` of this location.
    pub fn get(&self, key: &str) -> (value: Option<&String>)
        ensures
            match value {
                Some(v) => self.setting(key@) == Some(v@),
                None => self.setting(key@) == None::<Seq<char>>,
            },
    {
        let wanted = String::from_str(key);
        let ghost v = location_view(self.location@);
        let n = self.location.len();
        assert(v.skip(0) =~= v);
        for i in 0..n
            invariant
                n == self.location@.len(),
                v == location_view(self.location@),
                wanted@ == key@,
                location_get(v, key@) == location_get(v.skip(i as int), key@),
        {
            assert(v.skip(i as int)[0] == v[i as int]);
            if self.location[i].0 == wanted {
                return Some(&self.location[i].1);
            }
            assert(v.skip(i as int).drop_first() =~= v.skip(i + 1));
        }
        None
    }

    /// Whether this location has the setting `key`.
    pub fn contains_key(&self, key: &str) -> (present: bool)
        ensures
            present == self.setting(key@) is Some,
    {
        self.get(key).is_some()
    }
}

impl Cowconfig {
    /// The `address:port` the server listens on.
    pub fn listen_address(&self) -> (addr: String)
        ensures
            addr@ == self.address@ + ":"@ + self.port@,
    {
        let mut addr = self.address.clone();
        addr.append(":");
        addr.append(self.port.as_str());
        addr
    }

    /// The log level: `debug` when debugging is on, `info` otherwise.
    pub fn log_level(&self) -> (level: &'static str)
        ensures
            level@ == (if self.debug {
                "debug"@
            } else {
                "info"@
            }),
    {
        if self.debug {
            "debug"
        } else {
            "info"
        }
    }
}

} // verus!
