//! Character-level string helpers used throughout the catalog and the
//! serializer, together with the spec-level functions their contracts are
//! stated over.

use vstd::prelude::*;
use vstd::string::StrSliceExecFns;

verus! {

/// Whether two strings have the same characters.
pub fn str_eq(a: &str, b: &str) -> (r: bool)
    ensures
        r == (a@ == b@),
{
    let alen = a.unicode_len();
    let blen = b.unicode_len();
    if alen != blen {
        return false;
    }
    let mut i: usize = 0;
    while i < alen
        invariant
            i <= alen,
            alen == a@.len(),
            blen == b@.len(),
            alen == blen,
            forall|j: int| 0 <= j < i ==> a@[j] == b@[j],
        decreases alen - i,
    {
        if a.get_char(i) != b.get_char(i) {
            return false;
        }
        i = i + 1;
    }
    proof {
        assert(a@ =~= b@);
    }
    true
}

/// Index of the first occurrence of a character, if any.
pub fn find_char(s: &str, c: char) -> (r: Option<usize>)
    ensures
        match r {
            Some(i) => i < s@.len() && s@[i as int] == c && forall|j: int|
                0 <= j < i ==> s@[j] != c,
            None => forall|j: int| 0 <= j < s@.len() ==> s@[j] != c,
        },
{
    let len = s.unicode_len();
    let mut i: usize = 0;
    while i < len
        invariant
            i <= len,
            len == s@.len(),
            forall|j: int| 0 <= j < i ==> s@[j] != c,
        decreases len - i,
    {
        if s.get_char(i) == c {
            return Some(i);
        }
        i = i + 1;
    }
    None
}

/// Index of the last occurrence of a character, if any.
pub fn rfind_char(s: &str, c: char) -> (r: Option<usize>)
    ensures
        match r {
            Some(i) => i < s@.len() && s@[i as int] == c && forall|j: int|
                i < j < s@.len() ==> s@[j] != c,
            None => forall|j: int| 0 <= j < s@.len() ==> s@[j] != c,
        },
{
    let len = s.unicode_len();
    let mut i: usize = len;
    while i > 0
        invariant
            i <= len,
            len == s@.len(),
            forall|j: int| i <= j < s@.len() ==> s@[j] != c,
        decreases i,
    {
        i = i - 1;
        if s.get_char(i) == c {
            return Some(i);
        }
    }
    None
}

/// Whether `s` ends with `suffix`, character-wise.
pub fn str_ends_with(s: &str, suffix: &str) -> (r: bool)
    ensures
        r == (s@.len() >= suffix@.len() && s@.skip(s@.len() - suffix@.len()) == suffix@),
{
    let slen = s.unicode_len();
    let tlen = suffix.unicode_len();
    if slen < tlen {
        return false;
    }
    let start = slen - tlen;
    let mut i: usize = 0;
    while i < tlen
        invariant
            i <= tlen,
            slen == s@.len(),
            tlen == suffix@.len(),
            start == slen - tlen,
            forall|j: int| 0 <= j < i ==> s@[start + j] == suffix@[j],
        decreases tlen - i,
    {
        if s.get_char(start + i) != suffix.get_char(i) {
            proof {
                assert(s@.skip(s@.len() - suffix@.len())[i as int] != suffix@[i as int]);
            }
            return false;
        }
        i = i + 1;
    }
    proof {
        assert(s@.skip(s@.len() - suffix@.len()) =~= suffix@);
    }
    true
}

/// Position of the first occurrence of a character, if any.
pub open spec fn char_index(s: Seq<char>, c: char) -> Option<int>
    decreases s.len(),
{
    if s.len() == 0 {
        None
    } else if s[0] == c {
        Some(0)
    } else {
        match char_index(s.drop_first(), c) {
            Some(i) => Some(i + 1),
            None => None,
        }
    }
}

/// Position of the last occurrence of a character, if any.
pub open spec fn char_last_index(s: Seq<char>, c: char) -> Option<int>
    decreases s.len(),
{
    if s.len() == 0 {
        None
    } else if s.last() == c {
        Some(s.len() - 1)
    } else {
        char_last_index(s.drop_last(), c)
    }
}

/// `char_index` names the first occurrence: the character is there and none
/// comes before it.
pub proof fn lemma_char_index(s: Seq<char>, c: char)
    ensures
        match char_index(s, c) {
            Some(i) => 0 <= i < s.len() && s[i] == c && forall|j: int| 0 <= j < i ==> s[j] != c,
            None => forall|j: int| 0 <= j < s.len() ==> s[j] != c,
        },
    decreases s.len(),
{
    if s.len() > 0 && s[0] != c {
        let t = s.drop_first();
        lemma_char_index(t, c);
        match char_index(t, c) {
            Some(i) => {
                assert(s[i + 1] == t[i]);
                assert forall|j: int| 0 <= j < i + 1 implies s[j] != c by {
                    if j >= 1 {
                        assert(s[j] == t[j - 1]);
                    }
                }
            },
            None => {
                assert forall|j: int| 0 <= j < s.len() implies s[j] != c by {
                    if j >= 1 {
                        assert(s[j] == t[j - 1]);
                    }
                }
            },
        }
    }
}

/// `char_last_index` names the last occurrence: the character is there and
/// none comes after it.
pub proof fn lemma_char_last_index(s: Seq<char>, c: char)
    ensures
        match char_last_index(s, c) {
            Some(i) => 0 <= i < s.len() && s[i] == c && forall|j: int| i < j < s.len() ==> s[j]
                != c,
            None => forall|j: int| 0 <= j < s.len() ==> s[j] != c,
        },
    decreases s.len(),
{
    if s.len() > 0 && s.last() != c {
        lemma_char_last_index(s.drop_last(), c);
        assert forall|j: int| 0 <= j < s.drop_last().len() implies s[j] == s.drop_last()[j] by {}
    }
}

/// A string cut at every occurrence of a separator: one piece more than
/// there are separators, each piece free of it.
pub open spec fn split_char(s: Seq<char>, c: char) -> Seq<Seq<char>>
    decreases s.len(),
{
    if s.len() == 0 {
        seq![Seq::<char>::empty()]
    } else {
        let rest = split_char(s.drop_first(), c);
        if s[0] == c {
            seq![Seq::<char>::empty()] + rest
        } else {
            seq![seq![s[0]] + rest[0]] + rest.skip(1)
        }
    }
}

/// Splitting never yields an empty piece list.
pub proof fn lemma_split_char_len(s: Seq<char>, c: char)
    ensures
        split_char(s, c).len() >= 1,
    decreases s.len(),
{
    if s.len() > 0 {
        lemma_split_char_len(s.drop_first(), c);
    }
}

/// How one more character extends a split: a separator opens a new empty
/// piece, any other character grows the last piece.
pub proof fn lemma_split_char_snoc(s: Seq<char>, c: char, x: char)
    ensures
        split_char(s, c).len() >= 1,
        x == c ==> split_char(s.push(x), c) == split_char(s, c).push(Seq::<char>::empty()),
        x != c ==> split_char(s.push(x), c) == split_char(s, c).update(
            split_char(s, c).len() - 1,
            split_char(s, c).last().push(x),
        ),
    decreases s.len(),
{
    reveal_with_fuel(split_char, 3);
    lemma_split_char_len(s, c);
    if s.len() == 0 {
        assert(s.push(x).drop_first() =~= Seq::<char>::empty());
        if x == c {
            assert(split_char(s.push(x), c) =~~= split_char(s, c).push(Seq::<char>::empty()));
        } else {
            assert(split_char(s.push(x), c) =~~= split_char(s, c).update(
                split_char(s, c).len() - 1,
                split_char(s, c).last().push(x),
            ));
        }
    } else {
        let t = s.drop_first();
        lemma_split_char_len(t, c);
        lemma_split_char_snoc(t, c, x);
        assert(s.push(x).drop_first() =~= t.push(x));
        assert(s.push(x)[0] == s[0]);
        let restx = split_char(t.push(x), c);
        let rest = split_char(t, c);
        if x == c {
            if s[0] == c {
                assert(split_char(s.push(x), c) =~~= split_char(s, c).push(
                    Seq::<char>::empty(),
                ));
            } else {
                assert(restx[0] == rest[0]);
                assert(restx.skip(1) =~~= rest.skip(1).push(Seq::<char>::empty()));
                assert(split_char(s.push(x), c) =~~= split_char(s, c).push(
                    Seq::<char>::empty(),
                ));
            }
        } else {
            if s[0] == c {
                assert(split_char(s.push(x), c) =~~= split_char(s, c).update(
                    split_char(s, c).len() - 1,
                    split_char(s, c).last().push(x),
                ));
            } else {
                if rest.len() == 1 {
                    assert(restx[0] == rest[0].push(x));
                    assert(restx.skip(1) =~~= rest.skip(1));
                    assert(split_char(s, c).len() == 1);
                    assert(seq![seq![s[0]] + restx[0]] + restx.skip(1) =~~= split_char(
                        s,
                        c,
                    ).update(split_char(s, c).len() - 1, split_char(s, c).last().push(x)));
                    assert(split_char(s.push(x), c) =~~= split_char(s, c).update(
                        split_char(s, c).len() - 1,
                        split_char(s, c).last().push(x),
                    ));
                } else {
                    assert(restx[0] == rest[0]);
                    assert(restx.skip(1) =~~= rest.skip(1).update(
                        rest.skip(1).len() - 1,
                        rest.skip(1).last().push(x),
                    ));
                    assert(split_char(s.push(x), c) =~~= split_char(s, c).update(
                        split_char(s, c).len() - 1,
                        split_char(s, c).last().push(x),
                    ));
                }
            }
        }
    }
}

/// Position of the first element whose key is `id`, if any.
pub open spec fn first_key_index<T>(s: Seq<T>, key: spec_fn(T) -> Seq<char>, id: Seq<char>) -> Option<int>
    decreases s.len(),
{
    if s.len() == 0 {
        None
    } else if key(s[0]) == id {
        Some(0)
    } else {
        match first_key_index(s.drop_first(), key, id) {
            Some(i) => Some(i + 1),
            None => None,
        }
    }
}

/// `first_key_index` names the first element with the key: it is there and
/// none comes before it.
pub proof fn lemma_first_key_index<T>(s: Seq<T>, key: spec_fn(T) -> Seq<char>, id: Seq<char>)
    ensures
        match first_key_index(s, key, id) {
            Some(i) => 0 <= i < s.len() && key(s[i]) == id && forall|j: int|
                0 <= j < i ==> key(s[j]) != id,
            None => forall|j: int| 0 <= j < s.len() ==> key(s[j]) != id,
        },
    decreases s.len(),
{
    if s.len() > 0 && key(s[0]) != id {
        let t = s.drop_first();
        lemma_first_key_index(t, key, id);
        match first_key_index(t, key, id) {
            Some(i) => {
                assert(s[i + 1] == t[i]);
                assert forall|j: int| 0 <= j < i + 1 implies key(s[j]) != id by {
                    if j >= 1 {
                        assert(s[j] == t[j - 1]);
                    }
                }
            },
            None => {
                assert forall|j: int| 0 <= j < s.len() implies key(s[j]) != id by {
                    if j >= 1 {
                        assert(s[j] == t[j - 1]);
                    }
                }
            },
        }
    }
}

/// Everything a filter keeps is an element of the underlying list and
/// passes the predicate.
pub proof fn lemma_filter_subset<A>(s: Seq<A>, pred: spec_fn(A) -> bool, x: A)
    requires
        s.filter(pred).contains(x),
    ensures
        s.contains(x),
        pred(x),
    decreases s.len(),
{
    reveal(Seq::filter);
    let out = s.filter(pred);
    let j = choose|j: int| 0 <= j < out.len() && out[j] == x;
    s.lemma_filter_pred(pred, j);
    if s.len() > 0 {
        if pred(s.last()) && x == s.last() {
            assert(s[s.len() - 1] == x);
        } else {
            let prev = s.drop_last().filter(pred);
            if pred(s.last()) {
                assert(out == prev.push(s.last()));
                assert(prev[j] == x);
                assert(prev.contains(x));
            } else {
                assert(out == prev);
            }
            lemma_filter_subset(s.drop_last(), pred, x);
            let i = choose|i: int| 0 <= i < s.drop_last().len() && s.drop_last()[i] == x;
            assert(s[i] == x);
        }
    }
}

/// The views of a list of owned strings, in order.
pub open spec fn string_views(ss: Seq<String>) -> Seq<Seq<char>> {
    ss.map_values(|p: String| p@)
}

/// Cut a string at every occurrence of a separator character.
pub fn split_by_char(s: &str, c: char) -> (r: Vec<String>)
    ensures
        string_views(r@) == split_char(s@, c),
{
    let len = s.unicode_len();
    let mut r: Vec<String> = Vec::new();
    let mut start: usize = 0;
    let mut i: usize = 0;
    proof {
        assert(s@.take(0) =~= Seq::<char>::empty());
        assert(s@.subrange(0, 0) =~= Seq::<char>::empty());
        assert(string_views(r@).push(s@.subrange(0, 0)) =~~= split_char(s@.take(0), c));
    }
    while i < len
        invariant
            start <= i <= len,
            len == s@.len(),
            string_views(r@).push(s@.subrange(start as int, i as int)) == split_char(
                s@.take(i as int),
                c,
            ),
        decreases len - i,
    {
        let ch = s.get_char(i);
        proof {
            lemma_split_char_snoc(s@.take(i as int), c, s@[i as int]);
            assert(s@.take(i + 1) =~= s@.take(i as int).push(s@[i as int]));
        }
        if ch == c {
            let piece = s.substring_char(start, i).to_owned();
            r.push(piece);
            start = i + 1;
            proof {
                assert(s@.subrange(start as int, start as int) =~= Seq::<char>::empty());
                assert(string_views(r@).push(s@.subrange(start as int, start as int)) =~~=
                    split_char(s@.take(i + 1), c));
            }
        } else {
            proof {
                let old_split = split_char(s@.take(i as int), c);
                assert(old_split.last() == s@.subrange(start as int, i as int));
                assert(s@.subrange(start as int, i as int).push(s@[i as int]) =~= s@.subrange(
                    start as int,
                    i + 1,
                ));
                assert(string_views(r@).push(s@.subrange(start as int, i + 1)) =~~= old_split.update(
                    old_split.len() - 1,
                    old_split.last().push(s@[i as int]),
                ));
            }
        }
        i = i + 1;
    }
    let piece = s.substring_char(start, len).to_owned();
    r.push(piece);
    proof {
        assert(s@.take(len as int) =~= s@);
        assert(string_views(r@) =~~= split_char(s@, c));
    }
    r
}

/// Strict lexicographic order on character sequences by code point: the
/// order `str` comparison gives, since UTF-8 preserves code-point order.
pub open spec fn seq_char_lt(a: Seq<char>, b: Seq<char>) -> bool
    decreases a.len(),
{
    if b.len() == 0 {
        false
    } else if a.len() == 0 {
        true
    } else if (a[0] as u32) < (b[0] as u32) {
        true
    } else if a[0] == b[0] {
        seq_char_lt(a.drop_first(), b.drop_first())
    } else {
        false
    }
}

/// Two strings neither of which orders below the other are equal.
pub proof fn lemma_seq_char_lt_connex(a: Seq<char>, b: Seq<char>)
    requires
        !seq_char_lt(a, b),
        !seq_char_lt(b, a),
    ensures
        a == b,
    decreases a.len(),
{
    if a.len() == 0 {
        assert(b.len() == 0);
        assert(a =~= b);
    } else {
        assert(b.len() > 0);
        assert((a[0] as u32) == (b[0] as u32));
        vstd::utf8::char_u32_cast(a[0], a[0] as u32);
        vstd::utf8::char_u32_cast(b[0], b[0] as u32);
        assert(a[0] == b[0]);
        lemma_seq_char_lt_connex(a.drop_first(), b.drop_first());
        assert(a.drop_first() == b.drop_first());
        assert forall|i: int| 0 <= i < a.len() implies a[i] == b[i] by {
            if i >= 1 {
                assert(a[i] == a.drop_first()[i - 1]);
                assert(b[i] == b.drop_first()[i - 1]);
            }
        }
        assert(a =~= b);
    }
}

/// The order is transitive.
pub proof fn lemma_seq_char_lt_trans(a: Seq<char>, b: Seq<char>, c: Seq<char>)
    requires
        seq_char_lt(a, b),
        seq_char_lt(b, c),
    ensures
        seq_char_lt(a, c),
    decreases a.len(),
{
    if a.len() > 0 {
        assert(b.len() > 0);
        assert(c.len() > 0);
        if a[0] == b[0] && b[0] == c[0] {
            lemma_seq_char_lt_trans(a.drop_first(), b.drop_first(), c.drop_first());
        }
    }
}

/// Whether `a` orders strictly before `b`, character by character.
pub fn str_lt(a: &str, b: &str) -> (r: bool)
    ensures
        r == seq_char_lt(a@, b@),
{
    let alen = a.unicode_len();
    let blen = b.unicode_len();
    let mut i: usize = 0;
    proof {
        assert(a@.skip(0) =~= a@);
        assert(b@.skip(0) =~= b@);
    }
    while i < alen && i < blen
        invariant
            i <= alen,
            i <= blen,
            alen == a@.len(),
            blen == b@.len(),
            seq_char_lt(a@, b@) == seq_char_lt(a@.skip(i as int), b@.skip(i as int)),
        decreases alen - i,
    {
        let ca = a.get_char(i);
        let cb = b.get_char(i);
        proof {
            assert(a@.skip(i as int)[0] == a@[i as int]);
            assert(b@.skip(i as int)[0] == b@[i as int]);
            assert(a@.skip(i as int).drop_first() =~= a@.skip(i + 1));
            assert(b@.skip(i as int).drop_first() =~= b@.skip(i + 1));
        }
        if (ca as u32) < (cb as u32) {
            return true;
        }
        if (ca as u32) > (cb as u32) {
            return false;
        }
        proof {
            assert(ca == cb);
        }
        i = i + 1;
    }
    proof {
        assert(a@.skip(i as int).len() == alen - i);
        assert(b@.skip(i as int).len() == blen - i);
    }
    alen < blen
}

/// No character of the string is `c`.
pub open spec fn no_char(s: Seq<char>, c: char) -> bool {
    forall|i: int| 0 <= i < s.len() ==> s[i] != c
}

/// A string free of the separator splits to itself alone.
pub proof fn lemma_split_no_sep(s: Seq<char>, c: char)
    requires
        no_char(s, c),
    ensures
        split_char(s, c) == seq![s],
    decreases s.len(),
{
    if s.len() > 0 {
        assert(s[0] != c);
        let t = s.drop_first();
        assert(no_char(t, c)) by {
            assert(forall|j: int| 0 <= j < t.len() ==> t[j] == s[j + 1]);
        }
        lemma_split_no_sep(t, c);
        assert(seq![s[0]] + split_char(t, c)[0] =~= s);
        assert(split_char(s, c) =~~= seq![s]);
    } else {
        assert(split_char(s, c) =~~= seq![s]);
    }
}

/// Splitting a string whose first separator stands right after `a`: the
/// first piece is `a`, the rest splits `b`.
pub proof fn lemma_split_concat(a: Seq<char>, b: Seq<char>, c: char)
    requires
        no_char(a, c),
    ensures
        split_char(a + seq![c] + b, c) == seq![a] + split_char(b, c),
    decreases a.len(),
{
    if a.len() == 0 {
        let s = a + seq![c] + b;
        assert(s =~= seq![c] + b);
        assert(s[0] == c);
        assert(s.drop_first() =~= b);
        assert(split_char(s, c) =~~= seq![a] + split_char(b, c));
    } else {
        let s = a + seq![c] + b;
        assert(s[0] == a[0]);
        assert(a[0] != c);
        let t = a.drop_first();
        assert(s.drop_first() =~= t + seq![c] + b);
        assert(no_char(t, c)) by {
            assert(forall|j: int| 0 <= j < t.len() ==> t[j] == a[j + 1]);
        }
        lemma_split_concat(t, b, c);
        let rest = split_char(t + seq![c] + b, c);
        lemma_split_char_len(b, c);
        assert(rest == seq![t] + split_char(b, c));
        assert(rest[0] == t);
        assert(rest.skip(1) =~~= split_char(b, c));
        assert(seq![a[0]] + rest[0] =~= a);
        assert(split_char(s, c) =~~= seq![a] + split_char(b, c));
    }
}

/// What `str::to_lowercase` returns: a function of the characters alone.
pub uninterp spec fn lower_of(s: Seq<char>) -> Seq<char>;

/// Relies on `str::to_lowercase`: the lower-case equivalent of the string,
/// depending on its characters alone.
#[verifier::external_body]
pub(crate) fn lowercase(s: &str) -> (r: String)
    ensures
        r@ == lower_of(s@),
{
    s.to_lowercase()
}

} // verus!
