//! Verified helpers for working with strings viewed as `Seq<char>`:
//! prefix/suffix tests, character search, slicing and concatenation,
//! and the lexicographic order used to sort specifier maps.

use vstd::prelude::*;

verus! {

use vstd::string::*;

/// `p` is a prefix of `s`.
pub open spec fn starts_with(s: Seq<char>, p: Seq<char>) -> bool {
    p.len() <= s.len() && s.subrange(0, p.len() as int) == p
}

/// `p` is a suffix of `s`.
pub open spec fn ends_with(s: Seq<char>, p: Seq<char>) -> bool {
    p.len() <= s.len() && s.subrange(s.len() - p.len(), s.len() as int) == p
}

pub fn str_starts_with(s: &str, p: &str) -> (r: bool)
    ensures
        r == starts_with(s@, p@),
{
    let n = p.unicode_len();
    if n > s.unicode_len() {
        return false;
    }
    let mut i: usize = 0;
    while i < n
        invariant
            0 <= i <= n,
            n == p@.len(),
            n <= s@.len(),
            forall|j: int| 0 <= j < i ==> s@[j] == p@[j],
        decreases n - i,
    {
        if s.get_char(i) != p.get_char(i) {
            proof {
                assert(s@.subrange(0, p@.len() as int)[i as int] == s@[i as int]);
            }
            return false;
        }
        i = i + 1;
    }
    proof {
        assert(s@.subrange(0, p@.len() as int) =~= p@);
    }
    true
}

pub fn str_ends_with(s: &str, p: &str) -> (r: bool)
    ensures
        r == ends_with(s@, p@),
{
    let n = p.unicode_len();
    let m = s.unicode_len();
    if n > m {
        return false;
    }
    let off: usize = m - n;
    let mut i: usize = 0;
    while i < n
        invariant
            0 <= i <= n,
            n == p@.len(),
            m == s@.len(),
            off == m - n,
            forall|j: int| 0 <= j < i ==> s@[off + j] == p@[j],
        decreases n - i,
    {
        if s.get_char(off + i) != p.get_char(i) {
            proof {
                assert(s@.subrange(s@.len() - p@.len(), s@.len() as int)[i as int]
                    == s@[off + i]);
            }
            return false;
        }
        i = i + 1;
    }
    proof {
        assert(s@.subrange(s@.len() - p@.len(), s@.len() as int) =~= p@);
    }
    true
}

/// Two strings hold the same characters.
pub fn str_eq(a: &str, b: &str) -> (r: bool)
    ensures
        r == (a@ == b@),
{
    let n = a.unicode_len();
    if n != b.unicode_len() {
        return false;
    }
    let mut i: usize = 0;
    while i < n
        invariant
            0 <= i <= n,
            n == a@.len(),
            n == b@.len(),
            forall|j: int| 0 <= j < i ==> a@[j] == b@[j],
        decreases n - i,
    {
        if a.get_char(i) != b.get_char(i) {
            return false;
        }
        i = i + 1;
    }
    proof {
        assert(a@ =~= b@);
    }
    true
}

/// Index of the last occurrence of `c` in `s`, if any.
pub open spec fn rfind_char(s: Seq<char>, c: char) -> Option<int>
    decreases s.len(),
{
    if s.len() == 0 {
        None
    } else if s.last() == c {
        Some(s.len() - 1)
    } else {
        rfind_char(s.drop_last(), c)
    }
}

pub proof fn lemma_rfind_char(s: Seq<char>, c: char)
    ensures
        match rfind_char(s, c) {
            Some(i) => 0 <= i < s.len() && s[i] == c && forall|j: int|
                i < j < s.len() ==> s[j] != c,
            None => forall|j: int| 0 <= j < s.len() ==> s[j] != c,
        },
    decreases s.len(),
{
    if s.len() > 0 && s.last() != c {
        lemma_rfind_char(s.drop_last(), c);
        assert forall|j: int| 0 <= j < s.len() - 1 implies s[j] == s.drop_last()[j] by {
            assert(s.drop_last()[j] == s[j]);
        }
    }
}

pub proof fn lemma_rfind_char_at(s: Seq<char>, c: char, i: int)
    requires
        0 <= i < s.len(),
        s[i] == c,
        forall|j: int| i < j < s.len() ==> s[j] != c,
    ensures
        rfind_char(s, c) == Some(i),
{
    lemma_rfind_char(s, c);
    match rfind_char(s, c) {
        Some(k) => {
            if k > i {
                assert(s[k] == c);
            } else if k < i {
                assert(s[i] != c);
            }
        }
        None => {
            assert(s[i] != c);
        }
    }
}

pub fn str_rfind_char(s: &str, c: char) -> (r: Option<usize>)
    ensures
        match r {
            Some(i) => rfind_char(s@, c) == Some(i as int),
            None => rfind_char(s@, c) is None,
        },
{
    let n = s.unicode_len();
    let mut i: usize = n;
    while i > 0
        invariant
            0 <= i <= n,
            n == s@.len(),
            forall|j: int| i <= j < n ==> s@[j] != c,
        decreases i,
    {
        i = i - 1;
        if s.get_char(i) == c {
            proof {
                lemma_rfind_char_at(s@, c, i as int);
            }
            return Some(i);
        }
    }
    proof {
        lemma_rfind_char(s@, c);
    }
    None
}

/// `s` split at every occurrence of `c`; the pieces do not contain `c`,
/// and joining them back with `c` yields `s`.
pub open spec fn split_char(s: Seq<char>, c: char) -> Seq<Seq<char>>
    decreases s.len(),
{
    match find_char(s, c) {
        None => seq![s],
        Some(i) => if 0 <= i < s.len() {
            seq![s.subrange(0, i)] + split_char(s.subrange(i + 1, s.len() as int), c)
        } else {
            // `find_char` never returns an out-of-range index
            seq![s]
        },
    }
}

pub proof fn lemma_split_char_len(s: Seq<char>, c: char)
    ensures
        split_char(s, c).len() >= 1,
    decreases s.len(),
{
    lemma_find_char(s, c);
    match find_char(s, c) {
        None => {}
        Some(i) => {
            lemma_split_char_len(s.subrange(i + 1, s.len() as int), c);
        }
    }
}

/// The pieces joined with `c` in between.
pub open spec fn join_char(parts: Seq<Seq<char>>, c: char) -> Seq<char>
    decreases parts.len(),
{
    if parts.len() == 0 {
        Seq::empty()
    } else if parts.len() == 1 {
        parts[0]
    } else {
        parts[0] + seq![c] + join_char(parts.subrange(1, parts.len() as int), c)
    }
}

/// Splitting and rejoining a string is the identity.
pub proof fn lemma_join_split_char(s: Seq<char>, c: char)
    ensures
        join_char(split_char(s, c), c) == s,
    decreases s.len(),
{
    lemma_find_char(s, c);
    match find_char(s, c) {
        None => {}
        Some(i) => {
            let tail = s.subrange(i + 1, s.len() as int);
            lemma_join_split_char(tail, c);
            lemma_split_char_len(tail, c);
            let parts = split_char(s, c);
            assert(parts.subrange(1, parts.len() as int) =~= split_char(tail, c));
            assert(s.subrange(0, i) + seq![c] + tail =~= s);
        }
    }
}

/// Index of the first occurrence of `c` in `s`, if any.
pub open spec fn find_char(s: Seq<char>, c: char) -> Option<int>
    decreases s.len(),
{
    if s.len() == 0 {
        None
    } else if s[0] == c {
        Some(0)
    } else {
        match find_char(s.subrange(1, s.len() as int), c) {
            Some(i) => Some(i + 1),
            None => None,
        }
    }
}

pub proof fn lemma_find_char(s: Seq<char>, c: char)
    ensures
        match find_char(s, c) {
            Some(i) => 0 <= i < s.len() && s[i] == c && forall|j: int|
                0 <= j < i ==> s[j] != c,
            None => forall|j: int| 0 <= j < s.len() ==> s[j] != c,
        },
    decreases s.len(),
{
    if s.len() > 0 && s[0] != c {
        let tail = s.subrange(1, s.len() as int);
        lemma_find_char(tail, c);
        assert forall|j: int| 1 <= j < s.len() implies s[j] == tail[j - 1] by {
            assert(tail[j - 1] == s[j]);
        }
    }
}

pub proof fn lemma_find_char_at(s: Seq<char>, c: char, i: int)
    requires
        0 <= i < s.len(),
        s[i] == c,
        forall|j: int| 0 <= j < i ==> s[j] != c,
    ensures
        find_char(s, c) == Some(i),
{
    lemma_find_char(s, c);
    match find_char(s, c) {
        Some(k) => {
            if k < i {
                assert(s[k] == c);
            } else if k > i {
                assert(s[i] != c);
            }
        }
        None => {
            assert(s[i] != c);
        }
    }
}

pub fn str_find_char(s: &str, c: char) -> (r: Option<usize>)
    ensures
        match r {
            Some(i) => find_char(s@, c) == Some(i as int),
            None => find_char(s@, c) is None,
        },
{
    let n = s.unicode_len();
    let mut i: usize = 0;
    while i < n
        invariant
            0 <= i <= n,
            n == s@.len(),
            forall|j: int| 0 <= j < i ==> s@[j] != c,
        decreases n - i,
    {
        if s.get_char(i) == c {
            proof {
                lemma_find_char_at(s@, c, i as int);
            }
            return Some(i);
        }
        i = i + 1;
    }
    proof {
        lemma_find_char(s@, c);
    }
    None
}

/// Copy of the characters of `s` in the range `[from, to)`.
pub fn str_substring(s: &str, from: usize, to: usize) -> (r: String)
    requires
        from <= to <= s@.len(),
    ensures
        r@ == s@.subrange(from as int, to as int),
{
    let sub = s.substring_char(from, to);
    sub.to_owned()
}

pub fn str_concat(a: &str, b: &str) -> (r: String)
    ensures
        r@ == a@ + b@,
{
    let mut r = a.to_owned();
    r.append(b);
    r
}

pub fn str_concat3(a: &str, b: &str, c: &str) -> (r: String)
    ensures
        r@ == a@ + b@ + c@,
{
    let mut r = a.to_owned();
    r.append(b);
    r.append(c);
    r
}

pub fn str_concat5(a: &str, b: &str, c: &str, d: &str, e: &str) -> (r: String)
    ensures
        r@ == a@ + b@ + c@ + d@ + e@,
{
    let mut r = a.to_owned();
    r.append(b);
    r.append(c);
    r.append(d);
    r.append(e);
    r
}

/// Relies on `String::push`: appends exactly one character at the end.
#[verifier::external_body]
pub fn push_char(s: &mut String, c: char)
    ensures
        final(s)@ == old(s)@.push(c),
{
    s.push(c);
}

pub fn str_split_char(s: &str, c: char) -> (r: Vec<String>)
    ensures
        r.deep_view() == split_char(s@, c),
{
    let mut parts: Vec<String> = Vec::new();
    let mut rest: String = s.to_owned();
    loop
        invariant
            split_char(s@, c) =~= parts.deep_view() + split_char(rest@, c),
        decreases rest@.len(),
    {
        let ghost old_parts = parts.deep_view();
        let ghost old_rest = rest@;
        let n = rest.as_str().unicode_len();
        match str_find_char(rest.as_str(), c) {
            Some(i) => {
                proof {
                    lemma_find_char(rest@, c);
                }
                let piece = str_substring(rest.as_str(), 0, i);
                let new_rest = str_substring(rest.as_str(), i + 1, n);
                parts.push(piece);
                rest = new_rest;
                proof {
                    assert(split_char(old_rest, c) =~= seq![old_rest.subrange(0, i as int)]
                        + split_char(rest@, c));
                    assert(parts.deep_view() =~= old_parts.push(old_rest.subrange(0, i as int)));
                    assert(split_char(s@, c) =~= parts.deep_view() + split_char(rest@, c));
                }
            }
            None => {
                parts.push(rest);
                proof {
                    assert(split_char(old_rest, c) =~= seq![old_rest]);
                    assert(parts.deep_view() =~= old_parts.push(old_rest));
                    assert(parts.deep_view() =~= old_parts + split_char(old_rest, c));
                }
                return parts;
            }
        }
    }
}

pub proof fn lemma_join_char_push(parts: Seq<Seq<char>>, c: char, x: Seq<char>)
    ensures
        join_char(parts.push(x), c) == if parts.len() == 0 {
            x
        } else {
            join_char(parts, c) + seq![c] + x
        },
    decreases parts.len(),
{
    let p2 = parts.push(x);
    if parts.len() == 0 {
        assert(p2.len() == 1);
        assert(join_char(p2, c) == p2[0]);
    } else {
        let tail = parts.subrange(1, parts.len() as int);
        lemma_join_char_push(tail, c, x);
        assert(p2.subrange(1, p2.len() as int) =~= tail.push(x));
        if parts.len() == 1 {
            assert(join_char(parts, c) == parts[0]);
            assert(join_char(p2, c) == p2[0] + seq![c] + join_char(tail.push(x), c));
            assert(tail.push(x) =~= seq![x]);
            assert(join_char(seq![x], c) == x);
        } else {
            assert(join_char(p2, c) == p2[0] + seq![c] + join_char(tail.push(x), c));
            assert(join_char(parts, c) + seq![c] + x =~= parts[0] + seq![c] + (join_char(
                tail,
                c,
            ) + seq![c] + x));
        }
    }
}

pub fn str_join_char(parts: &Vec<String>, c: char) -> (r: String)
    ensures
        r@ == join_char(parts.deep_view(), c),
{
    let mut r = String::new();
    let n = parts.len();
    let mut i: usize = 0;
    while i < n
        invariant
            0 <= i <= n,
            n == parts.len(),
            r@ == join_char(parts.deep_view().subrange(0, i as int), c),
        decreases n - i,
    {
        let ghost done = parts.deep_view().subrange(0, i as int);
        if i > 0 {
            push_char(&mut r, c);
        }
        r.append(parts[i].as_str());
        proof {
            lemma_join_char_push(done, c, parts.deep_view()[i as int]);
            assert(parts.deep_view().subrange(0, i + 1) =~= done.push(
                parts.deep_view()[i as int],
            ));
        }
        i = i + 1;
    }
    proof {
        assert(parts.deep_view().subrange(0, n as int) =~= parts.deep_view());
    }
    r
}

/// Strict lexicographic order on character sequences.  For UTF-8 encoded
/// strings this agrees with the byte-wise order used by `str`'s `Ord`.
pub open spec fn lex_lt(a: Seq<char>, b: Seq<char>) -> bool
    decreases a.len(),
{
    if b.len() == 0 {
        false
    } else if a.len() == 0 {
        true
    } else if a[0] != b[0] {
        a[0] < b[0]
    } else {
        lex_lt(a.subrange(1, a.len() as int), b.subrange(1, b.len() as int))
    }
}

pub proof fn lemma_lex_lt_total(a: Seq<char>, b: Seq<char>)
    ensures
        lex_lt(a, b) || lex_lt(b, a) || a == b,
    decreases a.len(),
{
    if a.len() != 0 && b.len() != 0 && a[0] == b[0] {
        let at = a.subrange(1, a.len() as int);
        let bt = b.subrange(1, b.len() as int);
        lemma_lex_lt_total(at, bt);
        if at == bt {
            assert(at.len() == a.len() - 1);
            assert(bt.len() == b.len() - 1);
            assert(a.len() == b.len());
            assert forall|j: int| 0 <= j < a.len() implies a[j] == b[j] by {
                if j > 0 {
                    assert(at[j - 1] == a[j - 1 + 1]);
                    assert(bt[j - 1] == b[j - 1 + 1]);
                }
            }
            assert(a =~= b);
        }
    }
}

pub proof fn lemma_lex_lt_asymmetric(a: Seq<char>, b: Seq<char>)
    requires
        lex_lt(a, b),
    ensures
        !lex_lt(b, a),
        a != b,
    decreases a.len(),
{
    if a.len() != 0 && b.len() != 0 && a[0] == b[0] {
        lemma_lex_lt_asymmetric(a.subrange(1, a.len() as int), b.subrange(1, b.len() as int));
        if a == b {
            assert(a.subrange(1, a.len() as int) =~= b.subrange(1, b.len() as int));
        }
    }
}

pub proof fn lemma_lex_lt_trans(a: Seq<char>, b: Seq<char>, c: Seq<char>)
    requires
        lex_lt(a, b),
        lex_lt(b, c),
    ensures
        lex_lt(a, c),
    decreases a.len(),
{
    if b.len() != 0 && c.len() != 0 {
        if a.len() == 0 {
        } else if a[0] == b[0] && b[0] == c[0] {
            lemma_lex_lt_trans(
                a.subrange(1, a.len() as int),
                b.subrange(1, b.len() as int),
                c.subrange(1, c.len() as int),
            );
        }
    }
}

/// Two prefixes of one string are comparable: the shorter is a prefix of
/// the longer.
pub proof fn lemma_prefixes_nested(s: Seq<char>, a: Seq<char>, b: Seq<char>)
    requires
        starts_with(s, a),
        starts_with(s, b),
        a.len() <= b.len(),
    ensures
        starts_with(b, a),
{
    assert forall|j: int| 0 <= j < a.len() implies b[j] == a[j] by {
        assert(s.subrange(0, a.len() as int)[j] == s[j]);
        assert(s.subrange(0, b.len() as int)[j] == s[j]);
    }
    assert(b.subrange(0, a.len() as int) =~= a);
}

/// A proper prefix sorts strictly below any of its extensions.
pub proof fn lemma_proper_prefix_lex_lt(a: Seq<char>, b: Seq<char>)
    requires
        starts_with(b, a),
        a.len() < b.len(),
    ensures
        lex_lt(a, b),
    decreases a.len(),
{
    if a.len() != 0 {
        assert(b.subrange(0, a.len() as int)[0] == b[0]);
        assert(a[0] == b[0]);
        let at = a.subrange(1, a.len() as int);
        let bt = b.subrange(1, b.len() as int);
        assert forall|j: int| 0 <= j < at.len() implies bt[j] == at[j] by {
            assert(b.subrange(0, a.len() as int)[j + 1] == b[j + 1]);
        }
        assert(bt.subrange(0, at.len() as int) =~= at);
        lemma_proper_prefix_lex_lt(at, bt);
    }
}

pub fn str_lex_lt(a: &str, b: &str) -> (r: bool)
    ensures
        r == lex_lt(a@, b@),
{
    let an = a.unicode_len();
    let bn = b.unicode_len();
    let mut i: usize = 0;
    proof {
        assert(a@.subrange(0, an as int) =~= a@);
        assert(b@.subrange(0, bn as int) =~= b@);
    }
    loop
        invariant
            0 <= i <= an,
            i <= bn,
            an == a@.len(),
            bn == b@.len(),
            forall|j: int| 0 <= j < i ==> a@[j] == b@[j],
            lex_lt(a@, b@) == lex_lt(
                a@.subrange(i as int, an as int),
                b@.subrange(i as int, bn as int),
            ),
        decreases an - i,
    {
        let ghost asub = a@.subrange(i as int, an as int);
        let ghost bsub = b@.subrange(i as int, bn as int);
        if i >= bn {
            return false;
        }
        if i >= an {
            return true;
        }
        let ca = a.get_char(i);
        let cb = b.get_char(i);
        proof {
            assert(asub[0] == a@[i as int]);
            assert(bsub[0] == b@[i as int]);
        }
        if ca != cb {
            return ca < cb;
        }
        proof {
            assert(asub.subrange(1, asub.len() as int)
                =~= a@.subrange(i + 1, an as int));
            assert(bsub.subrange(1, bsub.len() as int)
                =~= b@.subrange(i + 1, bn as int));
        }
        i = i + 1;
    }
}

} // verus!
