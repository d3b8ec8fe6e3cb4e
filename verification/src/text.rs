//! Character-sequence helpers shared by the registry and the completion index:
//! the `::` path separator, the code-point order on strings, and the
//! normalisation under which a selected name is matched against a capability.

use vstd::prelude::*;
use vstd::string::*;

verus! {

/// The separator that stands between a namespace path and the name below it.
pub open spec fn separator() -> Seq<char> {
    seq![':', ':']
}

/// `path::name`.
pub open spec fn qualified(path: Seq<char>, name: Seq<char>) -> Seq<char> {
    path + separator() + name
}

/// `path::`, the entry that announces that `path` is a namespace.
pub open spec fn with_separator(path: Seq<char>) -> Seq<char> {
    path + separator()
}

/// Whether the list holds a string that reads `entry`.
pub open spec fn holds(entries: Seq<String>, entry: Seq<char>) -> bool {
    exists|k: int| 0 <= k < entries.len() && (#[trigger] entries[k])@ == entry
}

/// Whether `::` occurs in `s`.
pub open spec fn has_separator(s: Seq<char>) -> bool {
    exists|i: int| 0 <= i && i + 1 < s.len() && #[trigger] s[i] == ':' && s[i + 1] == ':'
}

/// Strict lexicographic order by Unicode code point; a proper prefix comes first.
pub open spec fn lex_less(a: Seq<char>, b: Seq<char>) -> bool
    decreases a.len(),
{
    if b.len() == 0 {
        false
    } else if a.len() == 0 {
        true
    } else if a[0] != b[0] {
        (a[0] as int) < (b[0] as int)
    } else {
        lex_less(a.drop_first(), b.drop_first())
    }
}

/// Nothing comes before itself.
pub proof fn lemma_lex_irreflexive(a: Seq<char>)
    ensures
        !lex_less(a, a),
    decreases a.len(),
{
    if a.len() > 0 {
        lemma_lex_irreflexive(a.drop_first());
    }
}

/// What comes before something that comes before a third comes before the
/// third.
pub proof fn lemma_lex_transitive(a: Seq<char>, b: Seq<char>, c: Seq<char>)
    requires
        lex_less(a, b),
        lex_less(b, c),
    ensures
        lex_less(a, c),
    decreases a.len(),
{
    if a.len() > 0 && a[0] == b[0] && b[0] == c[0] {
        lemma_lex_transitive(a.drop_first(), b.drop_first(), c.drop_first());
    }
}

/// Two different sequences are ordered one way or the other.
pub proof fn lemma_lex_total(a: Seq<char>, b: Seq<char>)
    requires
        !lex_less(a, b),
        !lex_less(b, a),
    ensures
        a == b,
    decreases a.len(),
{
    if a.len() == 0 || b.len() == 0 {
        assert(a =~= b);
    } else {
        assert(a[0] as int == b[0] as int);
        lemma_lex_total(a.drop_first(), b.drop_first());
        assert(a =~= seq![a[0]] + a.drop_first());
        assert(b =~= seq![b[0]] + b.drop_first());
    }
}

/// Compares two strings by code point, as `lex_less` orders their views.
pub fn string_less(a: &str, b: &str) -> (r: bool)
    ensures
        r == lex_less(a@, b@),
{
    let la = a.unicode_len();
    let lb = b.unicode_len();
    let mut i: usize = 0;
    proof {
        assert(a@.skip(0) =~= a@);
        assert(b@.skip(0) =~= b@);
    }
    while i < la && i < lb
        invariant
            i <= la,
            i <= lb,
            la == a@.len(),
            lb == b@.len(),
            lex_less(a@, b@) == lex_less(a@.skip(i as int), b@.skip(i as int)),
        decreases la - i,
    {
        let ca = a.get_char(i);
        let cb = b.get_char(i);
        if ca != cb {
            return (ca as u32) < (cb as u32);
        }
        proof {
            assert(a@.skip(i as int).drop_first() =~= a@.skip(i as int + 1));
            assert(b@.skip(i as int).drop_first() =~= b@.skip(i as int + 1));
        }
        i += 1;
    }
    i < lb
}

/// `path::name` as an owned string.
pub fn join_path(path: &str, name: &str) -> (r: String)
    ensures
        r@ == qualified(path@, name@),
{
    let mut out = String::from_str(path);
    out.append("::");
    out.append(name);
    proof {
        reveal_strlit("::");
        assert("::"@ =~= separator());
    }
    out
}

/// `path::` as an owned string.
pub fn join_separator(path: &str) -> (r: String)
    ensures
        r@ == with_separator(path@),
{
    let mut out = String::from_str(path);
    out.append("::");
    proof {
        reveal_strlit("::");
        assert("::"@ =~= separator());
    }
    out
}

/// White space in the sense of Unicode's `White_Space` property.
pub open spec fn is_space(c: char) -> bool {
    let n = c as int;
    ||| 0x09 <= n <= 0x0D
    ||| n == 0x20
    ||| n == 0x85
    ||| n == 0xA0
    ||| n == 0x1680
    ||| 0x2000 <= n <= 0x200A
    ||| n == 0x2028
    ||| n == 0x2029
    ||| n == 0x202F
    ||| n == 0x205F
    ||| n == 0x3000
}

/// The code point of `c`, with the ASCII capitals mapped onto their small letters.
pub open spec fn fold_case(c: char) -> int {
    let n = c as int;
    if 0x41 <= n <= 0x5A {
        n + 32
    } else {
        n
    }
}

/// `s` without its leading white space.
pub open spec fn trim_start(s: Seq<char>) -> Seq<char>
    decreases s.len(),
{
    if s.len() > 0 && is_space(s[0]) {
        trim_start(s.drop_first())
    } else {
        s
    }
}

/// `s` without its trailing white space.
pub open spec fn trim_end(s: Seq<char>) -> Seq<char>
    decreases s.len(),
{
    if s.len() > 0 && is_space(s.last()) {
        trim_end(s.drop_last())
    } else {
        s
    }
}

/// `s` without the white space at either end.
pub open spec fn trimmed(s: Seq<char>) -> Seq<char> {
    trim_end(trim_start(s))
}

/// `s` code point by code point, ASCII capitals folded.
pub open spec fn folded(s: Seq<char>) -> Seq<int> {
    Seq::new(s.len(), |i: int| fold_case(s[i]))
}

/// Whether `candidate`, trimmed and without regard to ASCII case, spells `name`.
pub open spec fn spells(candidate: Seq<char>, name: Seq<char>) -> bool {
    folded(trimmed(candidate)) == folded(name)
}

/// Decides `is_space`.
pub fn char_is_space(c: char) -> (r: bool)
    ensures
        r == is_space(c),
{
    let n: u32 = c as u32;
    (0x09 <= n && n <= 0x0D) || n == 0x20 || n == 0x85 || n == 0xA0 || n == 0x1680 || (0x2000 <= n
        && n <= 0x200A) || n == 0x2028 || n == 0x2029 || n == 0x202F || n == 0x205F || n == 0x3000
}

/// Computes `fold_case`.
pub fn fold_char(c: char) -> (r: u32)
    ensures
        r == fold_case(c),
{
    let n: u32 = c as u32;
    if 0x41 <= n && n <= 0x5A {
        n + 32
    } else {
        n
    }
}

/// Decides `spells` on two strings.
pub fn name_matches(candidate: &str, name: &str) -> (r: bool)
    ensures
        r == spells(candidate@, name@),
{
    let n = candidate.unicode_len();
    let mut start: usize = 0;
    proof {
        assert(candidate@.skip(0) =~= candidate@);
    }
    while start < n && char_is_space(candidate.get_char(start))
        invariant
            start <= n,
            n == candidate@.len(),
            trim_start(candidate@) == trim_start(candidate@.skip(start as int)),
        decreases n - start,
    {
        proof {
            assert(candidate@.skip(start as int).drop_first() =~= candidate@.skip(start as int + 1));
        }
        start += 1;
    }
    assert(trim_start(candidate@) == candidate@.skip(start as int));
    let ghost body = candidate@.skip(start as int);
    let mut end: usize = n;
    proof {
        assert(candidate@.subrange(start as int, end as int) =~= body);
    }
    while end > start && char_is_space(candidate.get_char(end - 1))
        invariant
            start <= end <= n,
            n == candidate@.len(),
            trim_end(body) == trim_end(candidate@.subrange(start as int, end as int)),
        decreases end,
    {
        proof {
            let part = candidate@.subrange(start as int, end as int);
            assert(part.last() == candidate@[end as int - 1]);
            assert(part.drop_last() =~= candidate@.subrange(start as int, end as int - 1));
        }
        end -= 1;
    }
    let ghost core = candidate@.subrange(start as int, end as int);
    proof {
        if end > start {
            assert(core.last() == candidate@[end as int - 1]);
        }
        assert(trim_end(body) == core);
        assert(trimmed(candidate@) == core);
    }
    let m = name.unicode_len();
    if end - start != m {
        assert(folded(core).len() != folded(name@).len());
        return false;
    }
    let mut k: usize = 0;
    while k < m
        invariant
            k <= m,
            m == name@.len(),
            end - start == m,
            start <= end <= n,
            n == candidate@.len(),
            core == candidate@.subrange(start as int, end as int),
            trimmed(candidate@) == core,
            forall|j: int| 0 <= j < k ==> fold_case(core[j]) == fold_case(name@[j]),
        decreases m - k,
    {
        let a = fold_char(candidate.get_char(start + k));
        let b = fold_char(name.get_char(k));
        if a != b {
            proof {
                assert(folded(core)[k as int] == fold_case(core[k as int]));
                assert(folded(name@)[k as int] == fold_case(name@[k as int]));
            }
            return false;
        }
        k += 1;
    }
    assert(folded(core) =~= folded(name@));
    true
}

} // verus!
