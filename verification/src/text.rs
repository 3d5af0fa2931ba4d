//! Character-level string facts and the executable routines the rest of
//! the crate builds on: equality, lexicographic order, substring search,
//! and splitting on `-`.
use vstd::prelude::*;
use vstd::string::*;

verus! {

/// `a` comes no later than `b` in lexicographic order by character value.
pub open spec fn lex_le(a: Seq<char>, b: Seq<char>) -> bool
    decreases a.len(),
{
    if a.len() == 0 {
        true
    } else if b.len() == 0 {
        false
    } else if a[0] != b[0] {
        (a[0] as u32) < (b[0] as u32)
    } else {
        lex_le(a.skip(1), b.skip(1))
    }
}

/// `a` comes strictly before `b` in lexicographic order.
pub open spec fn lex_lt(a: Seq<char>, b: Seq<char>) -> bool {
    lex_le(a, b) && a != b
}

pub proof fn lemma_lex_le_refl(a: Seq<char>)
    ensures
        lex_le(a, a),
    decreases a.len(),
{
    if a.len() > 0 {
        lemma_lex_le_refl(a.skip(1));
    }
}

pub proof fn lemma_lex_le_total(a: Seq<char>, b: Seq<char>)
    ensures
        lex_le(a, b) || lex_le(b, a),
    decreases a.len(),
{
    if a.len() == 0 || b.len() == 0 {
    } else if a[0] == b[0] {
        lemma_lex_le_total(a.skip(1), b.skip(1));
    } else {
        assert(lex_le(a, b) == ((a[0] as u32) < (b[0] as u32)));
        assert(lex_le(b, a) == ((b[0] as u32) < (a[0] as u32)));
        assert((a[0] as u32) != (b[0] as u32)) by {
            vstd::utf8::char_u32_cast(a[0], a[0] as u32);
            vstd::utf8::char_u32_cast(b[0], b[0] as u32);
        }
    }
}

pub proof fn lemma_lex_le_antisymmetric(a: Seq<char>, b: Seq<char>)
    requires
        lex_le(a, b),
        lex_le(b, a),
    ensures
        a == b,
    decreases a.len(),
{
    if a.len() == 0 {
        assert(b.len() == 0);
        assert(a =~= b);
    } else {
        assert(a[0] == b[0]);
        lemma_lex_le_antisymmetric(a.skip(1), b.skip(1));
        assert(a.len() == b.len());
        assert forall|i: int| 0 <= i < a.len() implies a[i] == b[i] by {
            if i > 0 {
                assert(a[i] == a.skip(1)[i - 1]);
                assert(b[i] == b.skip(1)[i - 1]);
            }
        }
        assert(a =~= b);
    }
}

pub proof fn lemma_lex_le_transitive(a: Seq<char>, b: Seq<char>, c: Seq<char>)
    requires
        lex_le(a, b),
        lex_le(b, c),
    ensures
        lex_le(a, c),
    decreases a.len(),
{
    if a.len() > 0 && b.len() > 0 && c.len() > 0 {
        if a[0] == b[0] && b[0] == c[0] {
            lemma_lex_le_transitive(a.skip(1), b.skip(1), c.skip(1));
        }
    }
}

/// Character equality of two string slices.
pub fn str_eq(a: &str, b: &str) -> (r: bool)
    ensures
        r == (a@ == b@),
{
    let alen = a.unicode_len();
    let blen = b.unicode_len();
    if alen != blen {
        return false;
    }
    let mut i: usize = 0;
    while i < alen
        invariant
            i <= alen,
            alen == a@.len(),
            alen == b@.len(),
            forall|j: int| 0 <= j < i ==> a@[j] == b@[j],
        decreases alen - i,
    {
        if a.get_char(i) != b.get_char(i) {
            return false;
        }
        i = i + 1;
    }
    proof {
        assert(a@ =~= b@);
    }
    true
}

/// Lexicographic comparison of two string slices.
pub fn str_le(a: &str, b: &str) -> (r: bool)
    ensures
        r == lex_le(a@, b@),
{
    let alen = a.unicode_len();
    let blen = b.unicode_len();
    proof {
        assert(a@.skip(0) =~= a@);
        assert(b@.skip(0) =~= b@);
    }
    let mut i: usize = 0;
    while i < alen && i < blen
        invariant
            i <= alen,
            i <= blen,
            alen == a@.len(),
            blen == b@.len(),
            lex_le(a@, b@) == lex_le(a@.skip(i as int), b@.skip(i as int)),
        decreases alen - i,
    {
        let ca = a.get_char(i);
        let cb = b.get_char(i);
        proof {
            assert(a@.skip(i as int)[0] == a@[i as int]);
            assert(b@.skip(i as int)[0] == b@[i as int]);
        }
        if ca != cb {
            return (ca as u32) < (cb as u32);
        }
        proof {
            assert(a@.skip(i as int).skip(1) =~= a@.skip(i + 1));
            assert(b@.skip(i as int).skip(1) =~= b@.skip(i + 1));
        }
        i = i + 1;
    }
    proof {
        if i == alen {
            assert(a@.skip(i as int).len() == 0);
        } else {
            assert(b@.skip(i as int).len() == 0);
            assert(a@.skip(i as int).len() > 0);
        }
    }
    alen <= blen
}

/// Strict lexicographic comparison of two string slices.
pub fn str_lt(a: &str, b: &str) -> (r: bool)
    ensures
        r == lex_lt(a@, b@),
{
    let r = !str_le(b, a);
    proof {
        lemma_lex_le_total(a@, b@);
        if lex_le(a@, b@) && lex_le(b@, a@) {
            lemma_lex_le_antisymmetric(a@, b@);
        }
    }
    r
}

/// `needle` occurs in `hay` as a contiguous run of characters.
pub open spec fn contains_seq(hay: Seq<char>, needle: Seq<char>) -> bool {
    exists|k: int|
        0 <= k <= hay.len() - needle.len() && #[trigger] hay.subrange(k, k + needle.len())
            == needle
}

/// The characters of `needle` stand in `hay` starting at position `k`.
fn match_at(hay: &str, needle: &str, k: usize) -> (r: bool)
    requires
        k + needle@.len() <= hay@.len(),
    ensures
        r == (hay@.subrange(k as int, k + needle@.len()) == needle@),
{
    let hl = hay.unicode_len();
    let nl = needle.unicode_len();
    let mut i: usize = 0;
    while i < nl
        invariant
            i <= nl,
            nl == needle@.len(),
            hl == hay@.len(),
            k + nl <= hl,
            forall|j: int| 0 <= j < i ==> hay@[k + j] == needle@[j],
        decreases nl - i,
    {
        if hay.get_char(k + i) != needle.get_char(i) {
            proof {
                assert(hay@.subrange(k as int, k + nl)[i as int] != needle@[i as int]);
            }
            return false;
        }
        i = i + 1;
    }
    proof {
        assert(hay@.subrange(k as int, k + nl) =~= needle@);
    }
    true
}

/// Substring search: literal, case-sensitive containment.
pub fn str_contains(hay: &str, needle: &str) -> (r: bool)
    ensures
        r == contains_seq(hay@, needle@),
{
    let hl = hay.unicode_len();
    let nl = needle.unicode_len();
    if nl > hl {
        return false;
    }
    if nl == 0 {
        proof {
            assert(hay@.subrange(0, 0 + needle@.len() as int) =~= needle@);
        }
        return true;
    }
    let mut k: usize = 0;
    while k <= hl - nl
        invariant
            1 <= nl <= hl,
            hl == hay@.len(),
            nl == needle@.len(),
            k <= hl - nl + 1,
            forall|j: int| 0 <= j < k ==> #[trigger] hay@.subrange(j, j + nl) != needle@,
        decreases hl - nl - k + 1,
    {
        if match_at(hay, needle, k) {
            proof {
                assert(hay@.subrange(k as int, k as int + needle@.len()) == needle@);
            }
            return true;
        }
        k = k + 1;
    }
    false
}

/// The string holds the given character somewhere.
pub fn str_has_char(s: &str, c: char) -> (r: bool)
    ensures
        r == s@.contains(c),
{
    let n = s.unicode_len();
    let mut i: usize = 0;
    while i < n
        invariant
            i <= n,
            n == s@.len(),
            forall|j: int| 0 <= j < i ==> s@[j] != c,
        decreases n - i,
    {
        if s.get_char(i) == c {
            return true;
        }
        i = i + 1;
    }
    proof {
        assert(!s@.contains(c));
    }
    false
}

/// The pieces of `s` between its `-` characters, in order. A string
/// without a `-` is one piece; each `-` ends a piece, so leading,
/// trailing and doubled `-` give empty pieces.
pub open spec fn split_dash(s: Seq<char>) -> Seq<Seq<char>>
    decreases s.len(),
{
    if s.len() == 0 {
        seq![Seq::<char>::empty()]
    } else if s[0] == '-' {
        seq![Seq::<char>::empty()] + split_dash(s.skip(1))
    } else {
        let rest = split_dash(s.skip(1));
        seq![seq![s[0]] + rest[0]] + rest.skip(1)
    }
}

pub proof fn lemma_split_dash_nonempty(s: Seq<char>)
    ensures
        split_dash(s).len() >= 1,
    decreases s.len(),
{
    if s.len() > 0 {
        lemma_split_dash_nonempty(s.skip(1));
    }
}

/// Splitting a string without a dash yields that one piece.
pub proof fn lemma_split_dash_none(s: Seq<char>)
    requires
        !s.contains('-'),
    ensures
        split_dash(s) == seq![s],
    decreases s.len(),
{
    if s.len() == 0 {
        assert(s =~= Seq::<char>::empty());
        assert(split_dash(s) =~= seq![s]);
    } else {
        assert(s[0] != '-');
        assert(forall|i: int| 0 <= i < s.skip(1).len() ==> #[trigger] s.skip(1)[i] == s[i + 1]);
        lemma_split_dash_none(s.skip(1));
        let rest = split_dash(s.skip(1));
        assert(rest == seq![s.skip(1)]);
        assert(rest[0] == s.skip(1));
        let one = seq![s[0]] + rest[0];
        assert(rest.skip(1) =~= Seq::<Seq<char>>::empty());
        assert(split_dash(s) == seq![one] + rest.skip(1));
        assert(seq![one] + rest.skip(1) =~= seq![one]);
        assert(one =~= s);
        assert(seq![one] == seq![s]);
        assert(split_dash(s) == seq![s]);
    }
}

/// Splitting at the first dash: the piece before it, then the split of
/// what follows it.
pub proof fn lemma_split_dash_first(s: Seq<char>, j: int)
    requires
        0 <= j < s.len(),
        s[j] == '-',
        forall|i: int| 0 <= i < j ==> s[i] != '-',
    ensures
        split_dash(s) == seq![s.subrange(0, j)] + split_dash(s.subrange(j + 1, s.len() as int)),
    decreases j,
{
    if j == 0 {
        assert(s.subrange(0, 0) =~= Seq::<char>::empty());
        assert(s.subrange(1, s.len() as int) =~= s.skip(1));
        assert(split_dash(s) =~= seq![s.subrange(0, 0)] + split_dash(
            s.subrange(1, s.len() as int),
        ));
    } else {
        let t = s.skip(1);
        assert(forall|i: int| 0 <= i < t.len() ==> #[trigger] t[i] == s[i + 1]);
        lemma_split_dash_first(t, j - 1);
        let rest = split_dash(t);
        lemma_split_dash_nonempty(t.subrange(j, t.len() as int));
        assert(rest[0] == t.subrange(0, j - 1));
        assert(seq![s[0]] + t.subrange(0, j - 1) =~= s.subrange(0, j));
        assert(t.subrange(j, t.len() as int) =~= s.subrange(j + 1, s.len() as int));
        assert(rest.skip(1) =~= split_dash(t.subrange(j, t.len() as int)));
        assert(split_dash(s) =~= seq![s.subrange(0, j)] + split_dash(
            s.subrange(j + 1, s.len() as int),
        ));
    }
}

/// Index of the first `-` in `s`, if any.
fn find_dash(s: &str) -> (r: Option<usize>)
    ensures
        match r {
            Some(j) => {
                &&& 0 <= j < s@.len()
                &&& s@[j as int] == '-'
                &&& forall|i: int| 0 <= i < j ==> s@[i] != '-'
            },
            None => !s@.contains('-'),
        },
{
    let n = s.unicode_len();
    let mut i: usize = 0;
    while i < n
        invariant
            i <= n,
            n == s@.len(),
            forall|j: int| 0 <= j < i ==> s@[j] != '-',
        decreases n - i,
    {
        if s.get_char(i) == '-' {
            return Some(i);
        }
        i = i + 1;
    }
    proof {
        assert(!s@.contains('-'));
    }
    None
}

/// Split a string on `-`, as the recording dates of this crate are split.
pub fn split_dash_str(s: &str) -> (r: Vec<String>)
    ensures
        r.deep_view() == split_dash(s@),
        r.deep_view().len() >= 1,
{
    let mut parts: Vec<String> = Vec::new();
    let mut rest: &str = s;
    loop
        invariant
            split_dash(s@) == parts.deep_view() + split_dash(rest@),
        decreases rest@.len(),
    {
        match find_dash(rest) {
            Some(j) => {
                let rl = rest.unicode_len();
                let ghost prev = parts.deep_view();
                let ghost prev_rest = rest@;
                let piece = rest.substring_char(0, j);
                parts.push(piece.to_owned());
                rest = rest.substring_char(j + 1, rl);
                proof {
                    lemma_split_dash_first(prev_rest, j as int);
                    assert(parts.deep_view() =~= prev.push(piece@));
                    assert(prev + split_dash(prev_rest) =~= parts.deep_view() + split_dash(rest@));
                }
            },
            None => {
                let ghost prev = parts.deep_view();
                parts.push(rest.to_owned());
                proof {
                    lemma_split_dash_none(rest@);
                    assert(parts.deep_view() =~= prev.push(rest@));
                    assert(split_dash(s@) =~= parts.deep_view());
                    lemma_split_dash_nonempty(s@);
                }
                return parts;
            },
        }
    }
}

} // verus!
