//! Header lists and the hop-by-hop filtering that a reverse proxy applies.

use vstd::prelude::*;

verus! {

/// One header: its name as the header map holds it and its raw value bytes.
#[derive(Debug)]
pub struct Header {
    pub name: String,
    pub value: Vec<u8>,
}

impl View for Header {
    type V = (Seq<char>, Seq<u8>);

    open spec fn view(&self) -> (Seq<char>, Seq<u8>) {
        (self.name@, self.value@)
    }
}

/// The abstract value of a list of headers: (name, value) pairs in order.
pub open spec fn headers_view(h: Seq<Header>) -> Seq<(Seq<char>, Seq<u8>)> {
    h.map_values(|e: Header| e@)
}

/// ASCII lower-casing of one character; other characters are left alone.
pub open spec fn ascii_lower(c: char) -> char {
    if 'A' <= c && c <= 'Z' {
        ((c as u32) + 32) as char
    } else {
        c
    }
}

/// A string with its ASCII letters lower-cased.
pub open spec fn ascii_fold(s: Seq<char>) -> Seq<char> {
    s.map_values(|c: char| ascii_lower(c))
}

/// Two strings that are equal once ASCII case is ignored.
pub open spec fn same_ignoring_ascii_case(a: Seq<char>, b: Seq<char>) -> bool {
    ascii_fold(a) == ascii_fold(b)
}

/// `unicase::eq_ascii`: compares the two strings byte by byte with ASCII
/// letters folded to lower case (`str::eq_ignore_ascii_case`). Since folding
/// touches only single-byte characters, that is the same as comparing the
/// character sequences with ASCII letters folded, which is what is claimed.
#[verifier::external_body]
fn eq_ascii(left: &str, right: &str) -> (equal: bool)
    ensures
        equal == same_ignoring_ascii_case(left@, right@),
{
    unicase::eq_ascii(left, right)
}

/// The hop-by-hop headers that a proxy must not forward, compared without
/// regard to ASCII case.
pub open spec fn is_hop_header_name(name: Seq<char>) -> bool {
    ||| same_ignoring_ascii_case("Connection"@, name)
    ||| same_ignoring_ascii_case("Keep-Alive"@, name)
    ||| same_ignoring_ascii_case("Proxy-Authenticate"@, name)
    ||| same_ignoring_ascii_case("Proxy-Authorization"@, name)
    ||| same_ignoring_ascii_case("Te"@, name)
    ||| same_ignoring_ascii_case("Trailers"@, name)
    ||| same_ignoring_ascii_case("Transfer-Encoding"@, name)
    ||| same_ignoring_ascii_case("Upgrade"@, name)
}

/// Whether `name` is one of the hop-by-hop headers.
pub fn is_hop_header(name: &str) -> (hop: bool)
    ensures
        hop == is_hop_header_name(name@),
{
    eq_ascii("Connection", name) || eq_ascii("Keep-Alive", name) || eq_ascii(
        "Proxy-Authenticate",
        name,
    ) || eq_ascii("Proxy-Authorization", name) || eq_ascii("Te", name) || eq_ascii(
        "Trailers",
        name,
    ) || eq_ascii("Transfer-Encoding", name) || eq_ascii("Upgrade", name)
}

/// The headers with the hop-by-hop ones left out; every other header is
/// kept, with its value, in its place.
pub open spec fn without_hop_headers(h: Seq<(Seq<char>, Seq<u8>)>) -> Seq<(Seq<char>, Seq<u8>)>
    decreases h.len(),
{
    if h.len() == 0 {
        seq![]
    } else {
        let rest = without_hop_headers(h.drop_last());
        if is_hop_header_name(h.last().0) {
            rest
        } else {
            rest.push(h.last())
        }
    }
}

/// The values of the headers called `name`, in order.
pub open spec fn header_values(m: Seq<(Seq<char>, Seq<u8>)>, name: Seq<char>) -> Seq<Seq<u8>>
    decreases m.len(),
{
    if m.len() == 0 {
        seq![]
    } else {
        let r = header_values(m.drop_last(), name);
        if m.last().0 == name {
            r.push(m.last().1)
        } else {
            r
        }
    }
}

/// The value of the first header called `name`, if there is one.
pub open spec fn first_value(m: Seq<(Seq<char>, Seq<u8>)>, name: Seq<char>) -> Option<Seq<u8>> {
    if header_values(m, name).len() > 0 {
        Some(header_values(m, name)[0])
    } else {
        None
    }
}

/// No header is a hop-by-hop header.
pub open spec fn free_of_hop_headers(m: Seq<(Seq<char>, Seq<u8>)>) -> bool {
    forall|i: int| 0 <= i < m.len() ==> !is_hop_header_name(#[trigger] m[i].0)
}

/// The index of the first header called `name`, or the length when there is
/// none.
pub open spec fn first_named(m: Seq<(Seq<char>, Seq<u8>)>, name: Seq<char>) -> int
    decreases m.len(),
{
    if m.len() == 0 {
        0
    } else if m[0].0 == name {
        0
    } else {
        1 + first_named(m.drop_first(), name)
    }
}

/// The headers without those called `name`.
pub open spec fn drop_named(m: Seq<(Seq<char>, Seq<u8>)>, name: Seq<char>) -> Seq<(Seq<char>, Seq<u8>)>
    decreases m.len(),
{
    if m.len() == 0 {
        seq![]
    } else {
        let r = drop_named(m.drop_last(), name);
        if m.last().0 == name {
            r
        } else {
            r.push(m.last())
        }
    }
}

/// Setting a header the way a header map's entry is set: the first header
/// of that name takes the new value and the others of that name go; when
/// there is none, the header is added at the end.
pub open spec fn set_header(m: Seq<(Seq<char>, Seq<u8>)>, name: Seq<char>, value: Seq<u8>) -> Seq<
    (Seq<char>, Seq<u8>),
> {
    let f = first_named(m, name);
    if f < m.len() {
        m.take(f).push((name, value)) + drop_named(m.skip(f + 1), name)
    } else {
        m.push((name, value))
    }
}

fn copy_bytes(v: &Vec<u8>) -> (out: Vec<u8>)
    ensures
        out@ == v@,
{
    let mut out: Vec<u8> = Vec::new();
    for i in 0..v.len()
        invariant
            out@ == v@.take(i as int),
    {
        out.push(v[i]);
        assert(out@ =~= v@.take(i + 1));
    }
    assert(v@.take(v.len() as int) =~= v@);
    out
}

fn copy_header(h: &Header) -> (c: Header)
    ensures
        c@ == h@,
{
    Header { name: h.name.clone(), value: copy_bytes(&h.value) }
}

proof fn lemma_view_push(v: Seq<Header>, h: Header)
    ensures
        headers_view(v.push(h)) == headers_view(v).push(h@),
{
    assert(headers_view(v.push(h)) =~= headers_view(v).push(h@));
}

/// The headers with the hop-by-hop ones taken out; every other header stays,
/// in order, with its value.
pub fn remove_hop_headers(headers: &Vec<Header>) -> (result: Vec<Header>)
    ensures
        headers_view(result@) == without_hop_headers(headers_view(headers@)),
{
    let mut result: Vec<Header> = Vec::new();
    let n = headers.len();
    for i in 0..n
        invariant
            n == headers@.len(),
            headers_view(result@) == without_hop_headers(headers_view(headers@).take(i as int)),
    {
        let ghost h = headers_view(headers@);
        assert(h.take(i + 1).drop_last() =~= h.take(i as int));
        assert(h.take(i + 1).last() == headers@[i as int]@);
        if !is_hop_header(headers[i].name.as_str()) {
            let c = copy_header(&headers[i]);
            proof {
                lemma_view_push(result@, c);
            }
            result.push(c);
        }
    }
    assert(headers_view(headers@).take(n as int) =~= headers_view(headers@));
    result
}

proof fn lemma_first_named(m: Seq<(Seq<char>, Seq<u8>)>, name: Seq<char>)
    ensures
        0 <= first_named(m, name) <= m.len(),
        forall|j: int| 0 <= j < first_named(m, name) ==> #[trigger] m[j].0 != name,
        first_named(m, name) < m.len() ==> m[first_named(m, name)].0 == name,
    decreases m.len(),
{
    if m.len() > 0 && m[0].0 != name {
        let d = m.drop_first();
        lemma_first_named(d, name);
        assert forall|j: int| 0 <= j < first_named(m, name) implies #[trigger] m[j].0 != name by {
            if j > 0 {
                assert(m[j] == d[j - 1]);
            }
        }
    }
}

proof fn lemma_first_named_is(m: Seq<(Seq<char>, Seq<u8>)>, name: Seq<char>, k: int)
    requires
        0 <= k <= m.len(),
        forall|j: int| 0 <= j < k ==> #[trigger] m[j].0 != name,
        k == m.len() || m[k].0 == name,
    ensures
        first_named(m, name) == k,
    decreases k,
{
    if k > 0 {
        let d = m.drop_first();
        assert(m[0].0 != name);
        assert forall|j: int| 0 <= j < k - 1 implies #[trigger] d[j].0 != name by {
            assert(d[j] == m[j + 1]);
        }
        if k < m.len() {
            assert(d[k - 1] == m[k]);
        }
        lemma_first_named_is(d, name, k - 1);
    }
}

proof fn lemma_values_concat(a: Seq<(Seq<char>, Seq<u8>)>, b: Seq<(Seq<char>, Seq<u8>)>, key: Seq<char>)
    ensures
        header_values(a + b, key) == header_values(a, key) + header_values(b, key),
    decreases b.len(),
{
    if b.len() == 0 {
        assert(a + b =~= a);
        assert(header_values(a, key) + header_values(b, key) =~= header_values(a, key));
    } else {
        assert((a + b).drop_last() =~= a + b.drop_last());
        assert((a + b).last() == b.last());
        lemma_values_concat(a, b.drop_last(), key);
        if b.last().0 == key {
            assert(header_values(a, key) + header_values(b.drop_last(), key).push(b.last().1)
                =~= (header_values(a, key) + header_values(b.drop_last(), key)).push(b.last().1));
        }
    }
}

proof fn lemma_values_absent(m: Seq<(Seq<char>, Seq<u8>)>, key: Seq<char>)
    requires
        forall|j: int| 0 <= j < m.len() ==> #[trigger] m[j].0 != key,
    ensures
        header_values(m, key) == Seq::<Seq<u8>>::empty(),
    decreases m.len(),
{
    if m.len() > 0 {
        let d = m.drop_last();
        assert forall|j: int| 0 <= j < d.len() implies #[trigger] d[j].0 != key by {
            assert(d[j] == m[j]);
        }
        assert(m.last() == m[m.len() - 1]);
        lemma_values_absent(d, key);
    }
}

proof fn lemma_values_drop_named(m: Seq<(Seq<char>, Seq<u8>)>, name: Seq<char>, key: Seq<char>)
    ensures
        header_values(drop_named(m, name), key) == (if key == name {
            Seq::<Seq<u8>>::empty()
        } else {
            header_values(m, key)
        }),
    decreases m.len(),
{
    if m.len() > 0 {
        lemma_values_drop_named(m.drop_last(), name, key);
        let r = drop_named(m.drop_last(), name);
        if m.last().0 != name {
            assert(r.push(m.last()).drop_last() =~= r);
        }
    }
}

proof fn lemma_free_drop_named(m: Seq<(Seq<char>, Seq<u8>)>, name: Seq<char>)
    requires
        free_of_hop_headers(m),
    ensures
        free_of_hop_headers(drop_named(m, name)),
    decreases m.len(),
{
    if m.len() > 0 {
        let d = m.drop_last();
        assert forall|i: int| 0 <= i < d.len() implies !is_hop_header_name(#[trigger] d[i].0) by {
            assert(d[i] == m[i]);
        }
        lemma_free_drop_named(d, name);
        let r = drop_named(d, name);
        assert(!is_hop_header_name(m[m.len() - 1].0));
        if m.last().0 != name {
            let rp = r.push(m.last());
            assert forall|i: int| 0 <= i < rp.len() implies !is_hop_header_name(#[trigger] rp[i].0) by {
                if i < r.len() {
                    assert(rp[i] == r[i]);
                }
            }
        }
    }
}

/// A header list split at the first header called `name`.
proof fn lemma_split_at_first(m: Seq<(Seq<char>, Seq<u8>)>, name: Seq<char>)
    requires
        first_named(m, name) < m.len(),
    ensures
        m =~= m.take(first_named(m, name)) + seq![m[first_named(m, name)]] + m.skip(
            first_named(m, name) + 1,
        ),
        header_values(m.take(first_named(m, name)), name) == Seq::<Seq<u8>>::empty(),
{
    lemma_first_named(m, name);
    let f = first_named(m, name);
    let t = m.take(f);
    assert forall|j: int| 0 <= j < t.len() implies #[trigger] t[j].0 != name by {
        assert(t[j] == m[j]);
    }
    lemma_values_absent(t, name);
}

pub(crate) proof fn lemma_set_header_values(
    m: Seq<(Seq<char>, Seq<u8>)>,
    name: Seq<char>,
    value: Seq<u8>,
    key: Seq<char>,
)
    ensures
        header_values(set_header(m, name, value), key) == (if key == name {
            seq![value]
        } else {
            header_values(m, key)
        }),
{
    lemma_first_named(m, name);
    let f = first_named(m, name);
    let one = seq![(name, value)];
    if f < m.len() {
        lemma_split_at_first(m, name);
        let t = m.take(f);
        let rest = m.skip(f + 1);
        assert(t.push((name, value)) =~= t + one);
        lemma_values_concat(t, one, key);
        lemma_values_concat(t + one, drop_named(rest, name), key);
        lemma_values_drop_named(rest, name, key);
        assert(one.drop_last() =~= Seq::<(Seq<char>, Seq<u8>)>::empty());
        assert(header_values(one, key) == (if key == name {
            seq![value]
        } else {
            Seq::<Seq<u8>>::empty()
        })) by {
            assert(header_values(one.drop_last(), key) =~= Seq::<Seq<u8>>::empty());
        }
        let mid = seq![m[f]];
        assert(mid.drop_last() =~= Seq::<(Seq<char>, Seq<u8>)>::empty());
        assert(header_values(mid.drop_last(), key) =~= Seq::<Seq<u8>>::empty());
        lemma_values_concat(t, mid, key);
        lemma_values_concat(t + mid, rest, key);
        assert(m =~= t + mid + rest);
        if key == name {
            assert(header_values(t, key) + seq![value] + Seq::<Seq<u8>>::empty() =~= seq![value]);
        } else {
            assert(header_values(mid, key) =~= Seq::<Seq<u8>>::empty());
            assert(header_values(t, key) + Seq::<Seq<u8>>::empty() + header_values(rest, key)
                =~= header_values(t, key) + header_values(mid, key) + header_values(rest, key));
        }
    } else {
        assert(m.push((name, value)).drop_last() =~= m);
        if key == name {
            lemma_values_absent(m, name);
            assert(Seq::<Seq<u8>>::empty().push(value) =~= seq![value]);
        }
    }
}

pub(crate) proof fn lemma_set_header_free(m: Seq<(Seq<char>, Seq<u8>)>, name: Seq<char>, value: Seq<u8>)
    requires
        free_of_hop_headers(m),
        !is_hop_header_name(name),
    ensures
        free_of_hop_headers(set_header(m, name, value)),
{
    lemma_first_named(m, name);
    let f = first_named(m, name);
    let r = set_header(m, name, value);
    if f < m.len() {
        let a = m.take(f).push((name, value));
        let rest = m.skip(f + 1);
        assert forall|i: int| 0 <= i < rest.len() implies !is_hop_header_name(#[trigger] rest[i].0) by {
            assert(rest[i] == m[i + f + 1]);
        }
        lemma_free_drop_named(rest, name);
        let b = drop_named(rest, name);
        assert forall|i: int| 0 <= i < r.len() implies !is_hop_header_name(#[trigger] r[i].0) by {
            if i < f {
                assert(r[i] == m[i]);
            } else if i == f {
                assert(r[i] == (name, value));
            } else {
                assert(r[i] == b[i - a.len()]);
            }
        }
    } else {
        assert forall|i: int| 0 <= i < r.len() implies !is_hop_header_name(#[trigger] r[i].0) by {
            if i < m.len() {
                assert(r[i] == m[i]);
            }
        }
    }
}

/// The first value of `name` is the value of the first header so called.
pub(crate) proof fn lemma_first_value(m: Seq<(Seq<char>, Seq<u8>)>, name: Seq<char>)
    ensures
        first_named(m, name) <= m.len(),
        first_named(m, name) < m.len() ==> m[first_named(m, name)].0 == name && first_value(m, name)
            == Some(m[first_named(m, name)].1),
        first_named(m, name) == m.len() ==> first_value(m, name) == None::<Seq<u8>>,
{
    lemma_first_named(m, name);
    let f = first_named(m, name);
    if f < m.len() {
        lemma_split_at_first(m, name);
        let t = m.take(f);
        let mid = seq![m[f]];
        let rest = m.skip(f + 1);
        assert(mid.drop_last() =~= Seq::<(Seq<char>, Seq<u8>)>::empty());
        assert(header_values(mid.drop_last(), name) =~= Seq::<Seq<u8>>::empty());
        lemma_values_concat(t, mid, name);
        lemma_values_concat(t + mid, rest, name);
        assert(m =~= t + mid + rest);
        assert(header_values(t, name) + header_values(mid, name) =~= seq![m[f].1]);
    } else {
        lemma_values_absent(m, name);
    }
}

/// The index of the first header called `name`, or the length.
pub(crate) fn find_first(map: &Vec<Header>, name: &String) -> (k: usize)
    ensures
        k == first_named(headers_view(map@), name@),
        k <= map@.len(),
{
    let ghost v = headers_view(map@);
    let mut i: usize = 0;
    while i < map.len() && map[i].name != *name
        invariant
            i <= map@.len(),
            v == headers_view(map@),
            forall|j: int| 0 <= j < i ==> #[trigger] v[j].0 != name@,
        decreases map@.len() - i,
    {
        assert(v[i as int] == map@[i as int]@);
        i += 1;
    }
    proof {
        if i < map@.len() {
            assert(v[i as int] == map@[i as int]@);
        }
        lemma_first_named_is(v, name@, i as int);
    }
    i
}

/// The headers with `name` set to `value` the way a header map's entry is set.
pub fn set_header_value(map: &Vec<Header>, name: &String, value: &Vec<u8>) -> (out: Vec<Header>)
    ensures
        headers_view(out@) == set_header(headers_view(map@), name@, value@),
{
    let ghost v = headers_view(map@);
    let n = map.len();
    let f = find_first(map, name);
    let mut out: Vec<Header> = Vec::new();
    for i in 0..f
        invariant
            f <= n == map@.len(),
            v == headers_view(map@),
            headers_view(out@) == v.take(i as int),
    {
        let c = copy_header(&map[i]);
        proof {
            lemma_view_push(out@, c);
        }
        out.push(c);
        assert(v.take(i + 1) =~= v.take(i as int).push(v[i as int]));
    }
    let fresh = Header { name: name.clone(), value: copy_bytes(value) };
    proof {
        lemma_view_push(out@, fresh);
    }
    out.push(fresh);
    if f == n {
        assert(v.take(n as int) =~= v);
        return out;
    }
    let ghost front = v.take(f as int).push((name@, value@));
    let start = f + 1;
    assert(v.subrange(start as int, start as int) =~= Seq::<(Seq<char>, Seq<u8>)>::empty());
    for i in start..n
        invariant
            start == f + 1,
            f < n == map@.len(),
            v == headers_view(map@),
            headers_view(out@) == front + drop_named(v.subrange(start as int, i as int), name@),
    {
        let ghost s = v.subrange(start as int, i + 1);
        assert(s.drop_last() =~= v.subrange(start as int, i as int));
        assert(s.last() == v[i as int]);
        assert(v[i as int] == map@[i as int]@);
        if map[i].name != *name {
            let c = copy_header(&map[i]);
            proof {
                lemma_view_push(out@, c);
                assert(front + drop_named(v.subrange(start as int, i as int), name@).push(c@)
                    =~= (front + drop_named(v.subrange(start as int, i as int), name@)).push(c@));
            }
            out.push(c);
        }
    }
    assert(v.subrange(start as int, n as int) =~= v.skip(f + 1));
    out
}

proof fn lemma_filtered_free(h: Seq<(Seq<char>, Seq<u8>)>)
    ensures
        free_of_hop_headers(without_hop_headers(h)),
    decreases h.len(),
{
    if h.len() > 0 {
        lemma_filtered_free(h.drop_last());
        let rest = without_hop_headers(h.drop_last());
        if !is_hop_header_name(h.last().0) {
            let r = rest.push(h.last());
            assert forall|i: int| 0 <= i < r.len() implies !is_hop_header_name(#[trigger] r[i].0) by {
                if i < rest.len() {
                    assert(r[i] == rest[i]);
                }
            }
        }
    }
}

proof fn lemma_filtered_values(h: Seq<(Seq<char>, Seq<u8>)>, key: Seq<char>)
    ensures
        header_values(without_hop_headers(h), key) == (if is_hop_header_name(key) {
            Seq::<Seq<u8>>::empty()
        } else {
            header_values(h, key)
        }),
    decreases h.len(),
{
    if h.len() > 0 {
        lemma_filtered_values(h.drop_last(), key);
        let rest = without_hop_headers(h.drop_last());
        if !is_hop_header_name(h.last().0) {
            assert(rest.push(h.last()).drop_last() =~= rest);
        }
    }
}

proof fn lemma_filtered_fixed_point(m: Seq<(Seq<char>, Seq<u8>)>)
    requires
        free_of_hop_headers(m),
    ensures
        without_hop_headers(m) == m,
    decreases m.len(),
{
    if m.len() > 0 {
        let d = m.drop_last();
        assert forall|i: int| 0 <= i < d.len() implies !is_hop_header_name(#[trigger] d[i].0) by {
            assert(d[i] == m[i]);
        }
        lemma_filtered_fixed_point(d);
        assert(!is_hop_header_name(m[m.len() - 1].0));
        assert(d.push(m.last()) =~= m);
    }
}

/// No hop-by-hop header is ever forwarded: whatever the headers were, none
/// of those that remain is a hop-by-hop header, in any letter case.
pub proof fn law_hop_headers_never_forwarded(headers: Seq<(Seq<char>, Seq<u8>)>)
    ensures
        free_of_hop_headers(without_hop_headers(headers)),
{
    lemma_filtered_free(headers);
}

/// Only hop-by-hop headers are removed: every other header keeps all of its
/// values, in order, and no value is added.
pub proof fn law_end_to_end_headers_kept(headers: Seq<(Seq<char>, Seq<u8>)>, name: Seq<char>)
    ensures
        header_values(without_hop_headers(headers), name) == (if is_hop_header_name(name) {
            Seq::<Seq<u8>>::empty()
        } else {
            header_values(headers, name)
        }),
{
    lemma_filtered_values(headers, name);
}

/// Filtering twice is the same as filtering once.
pub proof fn law_filtering_idempotent(headers: Seq<(Seq<char>, Seq<u8>)>)
    ensures
        without_hop_headers(without_hop_headers(headers)) == without_hop_headers(headers),
{
    lemma_filtered_free(headers);
    lemma_filtered_fixed_point(without_hop_headers(headers));
}

/// Setting a header leaves exactly the new value under its name and every
/// other header's values as they were.
pub proof fn law_set_header(
    headers: Seq<(Seq<char>, Seq<u8>)>,
    name: Seq<char>,
    value: Seq<u8>,
    key: Seq<char>,
)
    ensures
        header_values(set_header(headers, name, value), key) == (if key == name {
            seq![value]
        } else {
            header_values(headers, key)
        }),
{
    lemma_set_header_values(headers, name, value, key);
}

proof fn lemma_lowercase_letters()
    ensures
        ascii_lower('C') == 'c',
        ascii_lower('K') == 'k',
        ascii_lower('A') == 'a',
        ascii_lower('P') == 'p',
        ascii_lower('T') == 't',
        ascii_lower('E') == 'e',
        ascii_lower('U') == 'u',
{
    vstd::utf8::char_u32_cast('c', 99u32);
    vstd::utf8::char_u32_cast('k', 107u32);
    vstd::utf8::char_u32_cast('a', 97u32);
    vstd::utf8::char_u32_cast('p', 112u32);
    vstd::utf8::char_u32_cast('t', 116u32);
    vstd::utf8::char_u32_cast('e', 101u32);
    vstd::utf8::char_u32_cast('u', 117u32);
}

/// The hop-by-hop headers are exactly these eight, compared without regard
/// to ASCII case: `connection`, `keep-alive`, `proxy-authenticate`,
/// `proxy-authorization`, `te`, `trailers`, `transfer-encoding` and
/// `upgrade`. Every other header, such as `authorization` or `cookie`, is
/// end-to-end and is forwarded.
pub proof fn law_hop_headers_are_the_eight(name: Seq<char>)
    ensures
        is_hop_header_name(name) <==> (ascii_fold(name) == seq!['c', 'o', 'n', 'n', 'e', 'c', 't', 'i', 'o', 'n']
            || ascii_fold(name) == seq!['k', 'e', 'e', 'p', '-', 'a', 'l', 'i', 'v', 'e']
            || ascii_fold(name) == seq!['p', 'r', 'o', 'x', 'y', '-', 'a', 'u', 't', 'h', 'e', 'n', 't', 'i', 'c', 'a', 't', 'e']
            || ascii_fold(name) == seq!['p', 'r', 'o', 'x', 'y', '-', 'a', 'u', 't', 'h', 'o', 'r', 'i', 'z', 'a', 't', 'i', 'o', 'n']
            || ascii_fold(name) == seq!['t', 'e']
            || ascii_fold(name) == seq!['t', 'r', 'a', 'i', 'l', 'e', 'r', 's']
            || ascii_fold(name) == seq!['t', 'r', 'a', 'n', 's', 'f', 'e', 'r', '-', 'e', 'n', 'c', 'o', 'd', 'i', 'n', 'g']
            || ascii_fold(name) == seq!['u', 'p', 'g', 'r', 'a', 'd', 'e']),
{
    lemma_lowercase_letters();
    reveal_strlit("Connection");
    assert(ascii_fold("Connection"@) =~= seq!['c', 'o', 'n', 'n', 'e', 'c', 't', 'i', 'o', 'n']);
    reveal_strlit("Keep-Alive");
    assert(ascii_fold("Keep-Alive"@) =~= seq!['k', 'e', 'e', 'p', '-', 'a', 'l', 'i', 'v', 'e']);
    reveal_strlit("Proxy-Authenticate");
    assert(ascii_fold("Proxy-Authenticate"@) =~= seq!['p', 'r', 'o', 'x', 'y', '-', 'a', 'u', 't', 'h', 'e', 'n', 't', 'i', 'c', 'a', 't', 'e']);
    reveal_strlit("Proxy-Authorization");
    assert(ascii_fold("Proxy-Authorization"@) =~= seq!['p', 'r', 'o', 'x', 'y', '-', 'a', 'u', 't', 'h', 'o', 'r', 'i', 'z', 'a', 't', 'i', 'o', 'n']);
    reveal_strlit("Te");
    assert(ascii_fold("Te"@) =~= seq!['t', 'e']);
    reveal_strlit("Trailers");
    assert(ascii_fold("Trailers"@) =~= seq!['t', 'r', 'a', 'i', 'l', 'e', 'r', 's']);
    reveal_strlit("Transfer-Encoding");
    assert(ascii_fold("Transfer-Encoding"@) =~= seq!['t', 'r', 'a', 'n', 's', 'f', 'e', 'r', '-', 'e', 'n', 'c', 'o', 'd', 'i', 'n', 'g']);
    reveal_strlit("Upgrade");
    assert(ascii_fold("Upgrade"@) =~= seq!['u', 'p', 'g', 'r', 'a', 'd', 'e']);
}

} // verus!
