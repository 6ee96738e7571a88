//! Recognising the opening request of an Engine.IO connection, and the client address
//! that a trusted proxy forwards.

use vstd::prelude::*;
use vstd::string::*;
use crate::text::{chars_of, string_of, trim, trimmed};

verus! {

/// The parts of `s` between the separators, after the part `current` already read,
/// as `str::split` gives them.
pub open spec fn split_from(s: Seq<char>, sep: char, current: Seq<char>) -> Seq<Seq<char>>
    decreases s.len(),
{
    if s.len() == 0 {
        seq![current]
    } else if s[0] == sep {
        seq![current] + split_from(s.drop_first(), sep, Seq::empty())
    } else {
        split_from(s.drop_first(), sep, current.push(s[0]))
    }
}

/// The parts of `s` between the separators.
pub open spec fn split_on(s: Seq<char>, sep: char) -> Seq<Seq<char>> {
    split_from(s, sep, Seq::empty())
}

/// The first of the query's parameters that starts with `sid=`.
pub open spec fn first_sid_pair(pairs: Seq<Seq<char>>) -> Option<Seq<char>>
    decreases pairs.len(),
{
    if pairs.len() == 0 {
        None
    } else if "sid="@.is_prefix_of(pairs[0]) {
        Some(pairs[0])
    } else {
        first_sid_pair(pairs.drop_first())
    }
}

/// A character allowed in a session id: an ASCII letter or digit, `_` or `-`.
pub open spec fn is_sid_char(c: char) -> bool {
    ('a' <= c && c <= 'z') || ('A' <= c && c <= 'Z') || ('0' <= c && c <= '9') || c == '_' || c == '-'
}

/// A session id: 16 allowed characters.
pub open spec fn valid_sid(sid: Seq<char>) -> bool {
    sid.len() == 16 && forall|i: int| 0 <= i < 16 ==> is_sid_char(#[trigger] sid[i])
}

/// The query names a valid session id: the value of its first `sid=` parameter (up to
/// a further `=`) is valid.
pub open spec fn names_valid_sid(query: Seq<char>) -> bool {
    match first_sid_pair(split_on(query, '&')) {
        Some(pair) => valid_sid(split_on(pair, '=')[1]),
        None => false,
    }
}

proof fn lemma_first_sid_pair_append(a: Seq<Seq<char>>, b: Seq<Seq<char>>)
    requires
        first_sid_pair(a) is None,
    ensures
        first_sid_pair(a + b) == first_sid_pair(b),
    decreases a.len(),
{
    if a.len() > 0 {
        assert((a + b).drop_first() =~= a.drop_first() + b);
        lemma_first_sid_pair_append(a.drop_first(), b);
    } else {
        assert(a + b =~= b);
    }
}

/// The value of a `sid=` pair: what follows `sid=`, up to the next `=`.
fn sid_value(chars: &Vec<char>, start: usize, end: usize) -> (b: bool)
    requires
        start + 4 <= end <= chars@.len(),
        "sid="@.is_prefix_of(chars@.subrange(start as int, end as int)),
    ensures
        b == valid_sid(split_on(chars@.subrange(start as int, end as int), '=')[1]),
{
    let ghost pair = chars@.subrange(start as int, end as int);
    proof {
        reveal_strlit("sid=");
        assert("sid="@.len() == 4);
        assert("sid="@[0] == 's' && "sid="@[1] == 'i' && "sid="@[2] == 'd' && "sid="@[3] == '=');
        assert(pair.subrange(0, 4) == "sid="@);
        assert(pair[0] == 's' && pair[1] == 'i' && pair[2] == 'd' && pair[3] == '=') by {
            assert(pair[0] == pair.subrange(0, 4)[0]);
            assert(pair[1] == pair.subrange(0, 4)[1]);
            assert(pair[2] == pair.subrange(0, 4)[2]);
            assert(pair[3] == pair.subrange(0, 4)[3]);
        }
    }
    let mut j: usize = start + 4;
    let mut ok = true;
    while j < end && chars[j] != '='
        invariant
            start + 4 <= j <= end,
            end <= chars@.len(),
            forall|k: int| start + 4 <= k < j ==> chars@[k] != '=',
            ok == forall|k: int| start + 4 <= k < j ==> is_sid_char(#[trigger] chars@[k]),
        decreases end - j,
    {
        let c = chars[j];
        if !(('a' <= c && c <= 'z') || ('A' <= c && c <= 'Z') || ('0' <= c && c <= '9') || c == '_' || c == '-') {
            ok = false;
        }
        j = j + 1;
    }
    proof {
        let value = chars@.subrange(start + 4, j as int);
        assert(split_on(pair, '=')[1] == value) by {
            let rest = pair.subrange(4, pair.len() as int);
            assert(split_from(pair, '=', Seq::empty()) == split_from(pair.subrange(1, pair.len() as int), '=', seq!['s'])) by {
                assert(pair.drop_first() =~= pair.subrange(1, pair.len() as int));
                assert(Seq::<char>::empty().push('s') =~= seq!['s']);
            }
            assert(split_from(pair.subrange(1, pair.len() as int), '=', seq!['s']) == split_from(pair.subrange(2, pair.len() as int), '=', seq!['s', 'i'])) by {
                assert(pair.subrange(1, pair.len() as int).drop_first() =~= pair.subrange(2, pair.len() as int));
                assert(seq!['s'].push('i') =~= seq!['s', 'i']);
            }
            assert(split_from(pair.subrange(2, pair.len() as int), '=', seq!['s', 'i']) == split_from(pair.subrange(3, pair.len() as int), '=', seq!['s', 'i', 'd'])) by {
                assert(pair.subrange(2, pair.len() as int).drop_first() =~= pair.subrange(3, pair.len() as int));
                assert(seq!['s', 'i'].push('d') =~= seq!['s', 'i', 'd']);
            }
            assert(split_from(pair.subrange(3, pair.len() as int), '=', seq!['s', 'i', 'd']) == seq![seq!['s', 'i', 'd']] + split_from(rest, '=', Seq::empty())) by {
                assert(pair.subrange(3, pair.len() as int).drop_first() =~= rest);
            }
            lemma_split_value(rest, (j - start - 4) as int);
            lemma_split_nonempty(rest, '=', Seq::empty());
            assert(rest.subrange(0, j - start - 4) =~= value);
            assert((seq![seq!['s', 'i', 'd']] + split_from(rest, '=', Seq::empty()))[1] == split_from(rest, '=', Seq::empty())[0]);
        }
        if ok {
            if value.len() == 16 {
                assert(valid_sid(value));
            }
        } else {
            let k = choose|k: int| start + 4 <= k < j && !is_sid_char(#[trigger] chars@[k]);
            assert(value[k - start - 4] == chars@[k]);
        }
    }
    ok && j - (start + 4) == 16
}

proof fn lemma_split_nonempty(s: Seq<char>, sep: char, current: Seq<char>)
    ensures
        split_from(s, sep, current).len() >= 1,
    decreases s.len(),
{
    if s.len() > 0 {
        if s[0] == sep {
            lemma_split_nonempty(s.drop_first(), sep, Seq::empty());
        } else {
            lemma_split_nonempty(s.drop_first(), sep, current.push(s[0]));
        }
    }
}

proof fn lemma_split_value(rest: Seq<char>, n: int)
    requires
        0 <= n <= rest.len(),
        forall|k: int| 0 <= k < n ==> rest[k] != '=',
        n == rest.len() || rest[n] == '=',
    ensures
        split_from(rest, '=', Seq::empty())[0] == rest.subrange(0, n),
{
    lemma_split_prefix(rest, n, Seq::empty());
}

proof fn lemma_split_prefix(rest: Seq<char>, n: int, current: Seq<char>)
    requires
        0 <= n <= rest.len(),
        forall|k: int| 0 <= k < n ==> rest[k] != '=',
        n == rest.len() || rest[n] == '=',
    ensures
        split_from(rest, '=', current)[0] == current + rest.subrange(0, n),
    decreases n,
{
    if n == 0 {
        if rest.len() == 0 {
            assert(current + rest.subrange(0, 0) =~= current);
        } else {
            assert(current + rest.subrange(0, 0) =~= current);
        }
    } else {
        lemma_split_prefix(rest.drop_first(), n - 1, current.push(rest[0]));
        assert(current.push(rest[0]) + rest.drop_first().subrange(0, n - 1) =~= current + rest.subrange(0, n));
    }
}

fn starts_with_sid(chars: &Vec<char>, start: usize, end: usize) -> (b: bool)
    requires
        start <= end <= chars@.len(),
    ensures
        b == "sid="@.is_prefix_of(chars@.subrange(start as int, end as int)),
        b ==> start + 4 <= end,
{
    proof {
        reveal_strlit("sid=");
        assert("sid="@.len() == 4);
    }
    if end - start < 4 {
        return false;
    }
    let b = chars[start] == 's' && chars[start + 1] == 'i' && chars[start + 2] == 'd' && chars[start + 3] == '=';
    proof {
        let seg = chars@.subrange(start as int, end as int);
        if b {
            assert(seg.subrange(0, 4) =~= "sid="@);
        } else {
            if "sid="@.is_prefix_of(seg) {
                assert(seg.subrange(0, 4)[0] == 's');
                assert(seg.subrange(0, 4)[1] == 'i');
                assert(seg.subrange(0, 4)[2] == 'd');
                assert(seg.subrange(0, 4)[3] == '=');
            }
        }
    }
    b
}

/// Whether an Engine.IO query string carries a valid session id (see
/// `names_valid_sid`).
pub fn has_valid_engine_sid(query: &str) -> (b: bool)
    ensures
        b == names_valid_sid(query@),
{
    let chars = chars_of(query);
    let n = chars.len();
    let mut start: usize = 0;
    let mut i: usize = 0;
    let ghost mut done: Seq<Seq<char>> = Seq::empty();
    proof {
        assert(chars@.subrange(0, n as int) =~= query@);
        assert(chars@.subrange(0, 0) =~= Seq::<char>::empty());
        assert(done + split_from(chars@.subrange(0, n as int), '&', chars@.subrange(0, 0)) =~= split_on(query@, '&'));
    }
    while i < n
        invariant
            start <= i <= n,
            n == chars@.len(),
            chars@ == query@,
            split_on(query@, '&') == done + split_from(
                chars@.subrange(i as int, n as int),
                '&',
                chars@.subrange(start as int, i as int),
            ),
            first_sid_pair(done) is None,
        decreases n - i,
    {
        let ghost rest = chars@.subrange(i as int, n as int);
        let ghost current = chars@.subrange(start as int, i as int);
        proof {
            assert(rest.drop_first() =~= chars@.subrange(i + 1, n as int));
            assert(rest[0] == chars@[i as int]);
        }
        if chars[i] == '&' {
            if starts_with_sid(&chars, start, i) {
                let b = sid_value(&chars, start, i);
                proof {
                    let tail = seq![current] + split_from(chars@.subrange(i + 1, n as int), '&', Seq::empty());
                    assert(split_on(query@, '&') == done + tail);
                    lemma_first_sid_pair_append(done, tail);
                }
                return b;
            }
            proof {
                let tail = split_from(chars@.subrange(i + 1, n as int), '&', Seq::empty());
                assert(done + (seq![current] + tail) =~= done.push(current) + tail);
                assert(first_sid_pair(done.push(current)) is None) by {
                    lemma_first_sid_pair_append(done, seq![current]);
                    assert(done + seq![current] =~= done.push(current));
                    assert(seq![current].drop_first() =~= Seq::<Seq<char>>::empty());
                    assert(!"sid="@.is_prefix_of(seq![current][0]));
                    assert(first_sid_pair(seq![current]) == first_sid_pair(seq![current].drop_first()));
                }
                done = done.push(current);
                assert(chars@.subrange(i + 1, i + 1) =~= Seq::<char>::empty());
            }
            start = i + 1;
        } else {
            proof {
                assert(current.push(chars@[i as int]) =~= chars@.subrange(start as int, i + 1));
            }
        }
        i = i + 1;
    }
    let ghost current = chars@.subrange(start as int, n as int);
    proof {
        assert(chars@.subrange(n as int, n as int) =~= Seq::<char>::empty());
        assert(split_on(query@, '&') == done + seq![current]);
        lemma_first_sid_pair_append(done, seq![current]);
        assert(seq![current].drop_first() =~= Seq::<Seq<char>>::empty());
    }
    if starts_with_sid(&chars, start, n) {
        sid_value(&chars, start, n)
    } else {
        false
    }
}

/// The path is under `/socket.io` and the query names no valid session id.
pub open spec fn initial_handshake(path: Seq<char>, query: Option<Seq<char>>) -> bool {
    "/socket.io"@.is_prefix_of(path) && !(query matches Some(q) && names_valid_sid(q))
}

/// Whether a request opens a new Engine.IO connection: its path starts with
/// `/socket.io` and its query carries no valid session id of an established one.
pub fn is_initial_engine_handshake(path: &str, query: Option<&str>) -> (b: bool)
    ensures
        b == initial_handshake(path@, match query {
            Some(q) => Some(q@),
            None => None,
        }),
{
    let chars = chars_of(path);
    let prefix = chars_of("/socket.io");
    proof {
        reveal_strlit("/socket.io");
    }
    if chars.len() < prefix.len() {
        return false;
    }
    let mut i: usize = 0;
    while i < prefix.len()
        invariant
            i <= prefix@.len(),
            prefix@ == "/socket.io"@,
            chars@ == path@,
            prefix@.len() <= chars@.len(),
            forall|k: int| 0 <= k < i ==> chars@[k] == prefix@[k],
        decreases prefix@.len() - i,
    {
        if chars[i] != prefix[i] {
            proof {
                if "/socket.io"@.is_prefix_of(path@) {
                    assert(path@.subrange(0, prefix@.len() as int)[i as int] == path@[i as int]);
                }
            }
            return false;
        }
        i = i + 1;
    }
    proof {
        assert(path@.subrange(0, prefix@.len() as int) =~= prefix@);
    }
    match query {
        Some(q) => !has_valid_engine_sid(q),
        None => true,
    }
}

/// The client address that a proxy forwards: the first comma-separated entry of the
/// header, trimmed, when not empty.
pub open spec fn forwarded_entry(header: Seq<char>) -> Option<Seq<char>> {
    let first = split_on(header, ',')[0];
    if trimmed(first).len() > 0 {
        Some(trimmed(first))
    } else {
        None
    }
}

/// The first entry of a forwarding header, trimmed, when not empty.
pub fn forwarded_client_address(header: &str) -> (r: Option<String>)
    ensures
        match forwarded_entry(header@) {
            Some(a) => r matches Some(s) && s@ == a,
            None => r is None,
        },
{
    let chars = chars_of(header);
    let mut i: usize = 0;
    while i < chars.len() && chars[i] != ','
        invariant
            i <= chars@.len(),
            chars@ == header@,
            forall|k: int| 0 <= k < i ==> chars@[k] != ',',
        decreases chars@.len() - i,
    {
        i = i + 1;
    }
    proof {
        lemma_split_first(header@, i as int, Seq::empty());
        assert(Seq::<char>::empty() + header@.subrange(0, i as int) =~= chars@.subrange(0, i as int));
    }
    let first = string_of(slice_prefix(&chars, i).as_slice());
    let trimmed_first = trim(first.as_str());
    if trimmed_first.unicode_len() > 0 {
        Some(trimmed_first.to_owned())
    } else {
        None
    }
}

fn slice_prefix(chars: &Vec<char>, n: usize) -> (v: Vec<char>)
    requires
        n <= chars@.len(),
    ensures
        v@ == chars@.subrange(0, n as int),
{
    let mut v: Vec<char> = Vec::new();
    let mut i: usize = 0;
    while i < n
        invariant
            i <= n,
            n <= chars@.len(),
            v@ == chars@.subrange(0, i as int),
        decreases n - i,
    {
        v.push(chars[i]);
        i = i + 1;
        proof {
            assert(v@ =~= chars@.subrange(0, i as int));
        }
    }
    v
}

proof fn lemma_split_first(s: Seq<char>, n: int, current: Seq<char>)
    requires
        0 <= n <= s.len(),
        forall|k: int| 0 <= k < n ==> s[k] != ',',
        n == s.len() || s[n] == ',',
    ensures
        split_from(s, ',', current)[0] == current + s.subrange(0, n),
    decreases n,
{
    lemma_split_nonempty(s, ',', current);
    if n == 0 {
        assert(current + s.subrange(0, 0) =~= current);
        if s.len() > 0 {
            lemma_split_nonempty(s.drop_first(), ',', Seq::empty());
        }
    } else {
        lemma_split_first(s.drop_first(), n - 1, current.push(s[0]));
        assert(current.push(s[0]) + s.drop_first().subrange(0, n - 1) =~= current + s.subrange(0, n));
    }
}

} // verus!
