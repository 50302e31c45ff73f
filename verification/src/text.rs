//! Character-level text utilities: ASCII case folding, substring search,
//! lexicographic ordering, trimming, and path-segment extraction.
//!
//! All executable functions here are specified against `Seq<char>` views, so
//! the rest of the crate can state its contracts over plain sequences.
use vstd::prelude::*;

verus! {

/// ASCII case folding for one character: upper-case letters map to lower
/// case, every other character is kept as it is.
pub open spec fn lower_char(c: char) -> char {
    if 65 <= c as u32 && c as u32 <= 90 {
        ((c as u32 + 32) as u8) as char
    } else {
        c
    }
}

/// Executable ASCII case folding for one character.
pub fn lower_char_exec(c: char) -> (r: char)
    ensures
        r == lower_char(c),
{
    let u = c as u32;
    if 65 <= u && u <= 90 {
        ((u as u8) + 32) as char
    } else {
        c
    }
}

/// Folding is idempotent on single characters: a folded character is not
/// upper case.
pub proof fn lemma_lower_char_idempotent(c: char)
    ensures
        lower_char(lower_char(c)) == lower_char(c),
{
    if 65 <= c as u32 && c as u32 <= 90 {
        let u: int = c as u32 + 32;
        assert((u as u8) as u32 == u);
        assert(((u as u8) as char) as u32 == u);
    }
}

/// ASCII case folding applied to every character of a sequence.
pub open spec fn lower_seq(s: Seq<char>) -> Seq<char> {
    s.map_values(|c: char| lower_char(c))
}

/// Folding is idempotent on sequences.
pub proof fn lemma_lower_seq_idempotent(s: Seq<char>)
    ensures
        lower_seq(lower_seq(s)) == lower_seq(s),
{
    assert forall|i: int| 0 <= i < s.len() implies lower_seq(lower_seq(s))[i] == lower_seq(s)[i] by {
        lemma_lower_char_idempotent(s[i]);
    }
    assert(lower_seq(lower_seq(s)) =~= lower_seq(s));
}

/// Folds the sequence when `fold` is set, otherwise keeps it unchanged.
pub open spec fn fold_seq(fold: bool, s: Seq<char>) -> Seq<char> {
    if fold {
        lower_seq(s)
    } else {
        s
    }
}

/// Executable check that a string is already folded to lower case.
pub fn str_is_folded(s: &str) -> (r: bool)
    ensures
        r == (s@ == lower_seq(s@)),
{
    let n = s.unicode_len();
    let mut i: usize = 0;
    while i < n
        invariant
            i <= n,
            n == s@.len(),
            forall|k: int| 0 <= k < i ==> s@[k] == lower_seq(s@)[k],
        decreases n - i,
    {
        let c = s.get_char(i);
        if lower_char_exec(c) != c {
            proof {
                assert(s@[i as int] != lower_seq(s@)[i as int]);
            }
            return false;
        }
        i += 1;
    }
    proof {
        assert(s@ =~= lower_seq(s@));
    }
    true
}

/// The needle occurs in the haystack starting at position `i`.
pub open spec fn occurs_at(hay: Seq<char>, needle: Seq<char>, i: int) -> bool {
    0 <= i && i + needle.len() <= hay.len() && hay.subrange(i, i + needle.len() as int) == needle
}

/// The needle occurs somewhere in the haystack.
pub open spec fn contains_seq(hay: Seq<char>, needle: Seq<char>) -> bool {
    exists|i: int| occurs_at(hay, needle, i)
}

/// Compares the needle against the haystack at position `i`, folding both
/// sides when `fold` is set.
fn match_at(hay: &str, needle: &str, i: usize, fold: bool) -> (r: bool)
    requires
        i + needle@.len() <= hay@.len(),
    ensures
        r == occurs_at(fold_seq(fold, hay@), fold_seq(fold, needle@), i as int),
{
    let ghost fh = fold_seq(fold, hay@);
    let ghost fe = fold_seq(fold, needle@);
    let n = hay.unicode_len();
    let m = needle.unicode_len();
    let mut j: usize = 0;
    while j < m
        invariant
            j <= m,
            n == hay@.len(),
            m == needle@.len(),
            i + m <= n,
            fh == fold_seq(fold, hay@),
            fe == fold_seq(fold, needle@),
            fh.len() == hay@.len(),
            fe.len() == needle@.len(),
            forall|k: int| 0 <= k < j ==> fh[i + k] == fe[k],
        decreases m - j,
    {
        let ch = hay.get_char(i + j);
        let cn = needle.get_char(j);
        let fch = if fold {
            lower_char_exec(ch)
        } else {
            ch
        };
        let fcn = if fold {
            lower_char_exec(cn)
        } else {
            cn
        };
        if fch != fcn {
            proof {
                assert(fh[i + j] != fe[j as int]);
                assert(fh.subrange(i as int, i + fe.len() as int)[j as int] == fh[i + j]);
            }
            return false;
        }
        j += 1;
    }
    proof {
        assert(fh.subrange(i as int, i + fe.len() as int) =~= fe);
    }
    true
}

/// Substring search: reports whether the needle occurs in the haystack,
/// folding both sides to lower case when `fold` is set.
pub fn str_contains_fold(hay: &str, needle: &str, fold: bool) -> (r: bool)
    ensures
        r == contains_seq(fold_seq(fold, hay@), fold_seq(fold, needle@)),
{
    let ghost fh = fold_seq(fold, hay@);
    let ghost fe = fold_seq(fold, needle@);
    let n = hay.unicode_len();
    let m = needle.unicode_len();
    if m > n {
        return false;
    }
    if m == 0 {
        proof {
            assert(fh.subrange(0, 0) =~= fe);
            assert(occurs_at(fh, fe, 0));
        }
        return true;
    }
    let mut i: usize = 0;
    while i <= n - m
        invariant
            1 <= m <= n,
            n == hay@.len(),
            m == needle@.len(),
            i <= n - m + 1,
            fh == fold_seq(fold, hay@),
            fe == fold_seq(fold, needle@),
            fh.len() == n,
            fe.len() == m,
            forall|k: int| 0 <= k < i ==> !occurs_at(fh, fe, k),
        decreases n - m - i + 1,
    {
        if match_at(hay, needle, i, fold) {
            return true;
        }
        i += 1;
    }
    false
}

/// Lexicographic order on character sequences, by Unicode scalar value.
pub open spec fn lex_leq(a: Seq<char>, b: Seq<char>) -> bool
    decreases a.len(),
{
    if a.len() == 0 {
        true
    } else if b.len() == 0 {
        false
    } else if (a[0] as u32) < (b[0] as u32) {
        true
    } else if (a[0] as u32) > (b[0] as u32) {
        false
    } else {
        lex_leq(a.drop_first(), b.drop_first())
    }
}

/// The lexicographic order relates every pair of sequences.
pub proof fn lemma_lex_leq_total(a: Seq<char>, b: Seq<char>)
    ensures
        lex_leq(a, b) || lex_leq(b, a),
    decreases a.len(),
{
    if a.len() > 0 && b.len() > 0 && a[0] as u32 == b[0] as u32 {
        lemma_lex_leq_total(a.drop_first(), b.drop_first());
    }
}

/// Two sequences below each other lexicographically are equal.
pub proof fn lemma_lex_leq_antisymmetric(a: Seq<char>, b: Seq<char>)
    requires
        lex_leq(a, b),
        lex_leq(b, a),
    ensures
        a == b,
    decreases a.len(),
{
    if a.len() == 0 {
        assert(b.len() == 0);
        assert(a =~= b);
    } else {
        assert(b.len() > 0);
        assert(a[0] as u32 == b[0] as u32);
        vstd::utf8::char_u32_cast(a[0], a[0] as u32);
        vstd::utf8::char_u32_cast(b[0], b[0] as u32);
        assert(a[0] == b[0]);
        lemma_lex_leq_antisymmetric(a.drop_first(), b.drop_first());
        assert(a =~= seq![a[0]] + a.drop_first());
        assert(b =~= seq![b[0]] + b.drop_first());
    }
}

/// The lexicographic order is transitive.
pub proof fn lemma_lex_leq_transitive(a: Seq<char>, b: Seq<char>, c: Seq<char>)
    requires
        lex_leq(a, b),
        lex_leq(b, c),
    ensures
        lex_leq(a, c),
    decreases a.len(),
{
    if a.len() > 0 && b.len() > 0 && c.len() > 0 {
        if a[0] as u32 == b[0] as u32 && b[0] as u32 == c[0] as u32 {
            lemma_lex_leq_transitive(a.drop_first(), b.drop_first(), c.drop_first());
        }
    }
}

/// Executable lexicographic comparison of two strings.
pub fn str_leq(a: &str, b: &str) -> (r: bool)
    ensures
        r == lex_leq(a@, b@),
{
    let n = a.unicode_len();
    let m = b.unicode_len();
    proof {
        assert(a@.skip(0) =~= a@);
        assert(b@.skip(0) =~= b@);
    }
    let mut i: usize = 0;
    while i < n && i < m
        invariant
            i <= n,
            i <= m,
            n == a@.len(),
            m == b@.len(),
            lex_leq(a@, b@) == lex_leq(a@.skip(i as int), b@.skip(i as int)),
            lex_leq(b@, a@) == lex_leq(b@.skip(i as int), a@.skip(i as int)),
        decreases n - i,
    {
        let ca = a.get_char(i);
        let cb = b.get_char(i);
        if (ca as u32) < (cb as u32) {
            return true;
        }
        if (ca as u32) > (cb as u32) {
            return false;
        }
        proof {
            assert(a@.skip(i as int).drop_first() =~= a@.skip(i + 1));
            assert(b@.skip(i as int).drop_first() =~= b@.skip(i + 1));
        }
        i += 1;
    }
    proof {
        if i == n {
            assert(a@.skip(i as int).len() == 0);
        } else {
            assert(b@.skip(i as int).len() == 0);
            assert(a@.skip(i as int).len() > 0);
        }
    }
    i == n
}

/// A whitespace character: the code points with the Unicode `White_Space`
/// property, the set the standard library's trim removes.
pub open spec fn is_space(c: char) -> bool {
    let u = c as u32;
    ||| 9 <= u && u <= 13
    ||| u == 32
    ||| u == 0x85
    ||| u == 0xa0
    ||| u == 0x1680
    ||| 0x2000 <= u && u <= 0x200a
    ||| u == 0x2028
    ||| u == 0x2029
    ||| u == 0x202f
    ||| u == 0x205f
    ||| u == 0x3000
}

fn is_space_exec(c: char) -> (r: bool)
    ensures
        r == is_space(c),
{
    let u = c as u32;
    (9 <= u && u <= 13) || u == 32 || u == 0x85 || u == 0xa0 || u == 0x1680 || (0x2000 <= u && u
        <= 0x200a) || u == 0x2028 || u == 0x2029 || u == 0x202f || u == 0x205f || u == 0x3000
}

/// Drops leading whitespace.
pub open spec fn trim_front(s: Seq<char>) -> Seq<char>
    decreases s.len(),
{
    if s.len() > 0 && is_space(s[0]) {
        trim_front(s.drop_first())
    } else {
        s
    }
}

/// Drops trailing whitespace.
pub open spec fn trim_back(s: Seq<char>) -> Seq<char>
    decreases s.len(),
{
    if s.len() > 0 && is_space(s.last()) {
        trim_back(s.drop_last())
    } else {
        s
    }
}

/// Drops leading and trailing whitespace.
pub open spec fn spec_trim(s: Seq<char>) -> Seq<char> {
    trim_back(trim_front(s))
}

/// Executable trim of leading and trailing whitespace.
pub fn str_trim(s: &str) -> (r: String)
    ensures
        r@ == spec_trim(s@),
{
    let n = s.unicode_len();
    proof {
        assert(s@.skip(0) =~= s@);
    }
    let mut a: usize = 0;
    while a < n && is_space_exec(s.get_char(a))
        invariant
            a <= n,
            n == s@.len(),
            trim_front(s@) == trim_front(s@.skip(a as int)),
        decreases n - a,
    {
        proof {
            assert(s@.skip(a as int).drop_first() =~= s@.skip(a + 1));
        }
        a += 1;
    }
    let ghost f = s@.skip(a as int);
    proof {
        assert(trim_front(s@) == f);
    }
    let mut b: usize = n;
    proof {
        assert(f.take(n - a) =~= f);
    }
    while b > a && is_space_exec(s.get_char(b - 1))
        invariant
            a <= b <= n,
            n == s@.len(),
            f == s@.skip(a as int),
            trim_back(f) == trim_back(f.take(b - a)),
        decreases b,
    {
        proof {
            assert(f.take(b - a).len() > 0);
            assert(f.take(b - a).last() == s@[b - 1]);
            assert(f.take(b - a).drop_last() =~= f.take(b - 1 - a));
        }
        b -= 1;
    }
    proof {
        if b > a {
            assert(f.take(b - a).last() == s@[b - 1]);
        }
        assert(f.take(b - a) =~= s@.subrange(a as int, b as int));
    }
    let sub = s.substring_char(a, b);
    sub.to_owned()
}

/// A path separator.
pub open spec fn is_sep(c: char) -> bool {
    c == '/' || c == '\\'
}

fn is_sep_exec(c: char) -> (r: bool)
    ensures
        r == is_sep(c),
{
    c == '/' || c == '\\'
}

/// Index just after the last path separator, or 0 when there is none.
pub open spec fn seg_start(s: Seq<char>) -> int
    decreases s.len(),
{
    if s.len() == 0 {
        0
    } else if is_sep(s.last()) {
        s.len() as int
    } else {
        seg_start(s.drop_last())
    }
}

/// The final path segment: everything after the last separator.
pub open spec fn last_segment(s: Seq<char>) -> Seq<char> {
    s.skip(seg_start(s))
}

/// The sequence without its trailing path separators.
pub open spec fn strip_seps(s: Seq<char>) -> Seq<char>
    decreases s.len(),
{
    if s.len() > 0 && is_sep(s.last()) {
        strip_seps(s.drop_last())
    } else {
        s
    }
}

/// The file name a path designates: its final segment once trailing
/// separators are dropped, as the platform's path handling reads it.
pub open spec fn file_name_of(s: Seq<char>) -> Seq<char> {
    last_segment(strip_seps(s))
}

pub proof fn lemma_seg_start_bounds(s: Seq<char>)
    ensures
        0 <= seg_start(s) <= s.len(),
    decreases s.len(),
{
    if s.len() > 0 && !is_sep(s.last()) {
        lemma_seg_start_bounds(s.drop_last());
    }
}

/// Executable extraction of the file name of a path.
pub fn name_of_path(path: &str) -> (r: String)
    ensures
        r@ == file_name_of(path@),
{
    let n = path.unicode_len();
    proof {
        assert(path@.take(n as int) =~= path@);
    }
    let mut e: usize = n;
    while e > 0 && is_sep_exec(path.get_char(e - 1))
        invariant
            e <= n,
            n == path@.len(),
            strip_seps(path@) == strip_seps(path@.take(e as int)),
        decreases e,
    {
        proof {
            assert(path@.take(e as int).len() > 0);
            assert(path@.take(e as int).last() == path@[e - 1]);
            assert(path@.take(e as int).drop_last() =~= path@.take(e - 1));
        }
        e -= 1;
    }
    let ghost t = path@.take(e as int);
    proof {
        if e > 0 {
            assert(t.last() == path@[e - 1]);
        }
        assert(strip_seps(path@) == t);
        lemma_seg_start_bounds(t);
        assert(t.take(e as int) =~= t);
    }
    let mut b: usize = e;
    while b > 0 && !is_sep_exec(path.get_char(b - 1))
        invariant
            b <= e,
            e <= n,
            n == path@.len(),
            t == path@.take(e as int),
            seg_start(t) == seg_start(t.take(b as int)),
            seg_start(t.take(b as int)) <= b,
        decreases b,
    {
        proof {
            assert(t.take(b as int).len() > 0);
            assert(t.take(b as int).last() == path@[b - 1]);
            assert(t.take(b as int).drop_last() =~= t.take(b - 1));
            lemma_seg_start_bounds(t.take(b - 1));
        }
        b -= 1;
    }
    proof {
        if b > 0 {
            assert(t.take(b as int).last() == path@[b - 1]);
        }
        assert(seg_start(t) == b as int);
        assert(path@.subrange(b as int, e as int) =~= last_segment(t));
    }
    let sub = path.substring_char(b, e);
    sub.to_owned()
}

/// Index of the last `.` in the sequence, or -1 when there is none.
pub open spec fn dot_idx(s: Seq<char>) -> int
    decreases s.len(),
{
    if s.len() == 0 {
        -1
    } else if s.last() == '.' {
        s.len() - 1
    } else {
        dot_idx(s.drop_last())
    }
}

pub proof fn lemma_dot_idx_bounds(s: Seq<char>)
    ensures
        -1 <= dot_idx(s) < s.len(),
    decreases s.len(),
{
    if s.len() > 0 && s.last() != '.' {
        lemma_dot_idx_bounds(s.drop_last());
    }
}

/// The extension carried by a file name: the part after the last dot,
/// folded to lower case; absent when there is no dot, when the only dot
/// leads the name, or when the suffix would be empty.
pub open spec fn spec_extension(name: Seq<char>) -> Option<Seq<char>> {
    let d = dot_idx(name);
    if d > 0 && d + 1 < name.len() {
        Some(lower_seq(name.skip(d + 1)))
    } else {
        None
    }
}

/// The one-character string holding the lower-case counterpart of an
/// upper-case ASCII letter.
fn lower_str_of(c: char) -> (r: &'static str)
    requires
        65 <= c as u32 <= 90,
    ensures
        r@ == seq![lower_char(c)],
{
    let u = c as u32;
    if u == 65 {
        proof {
            reveal_strlit("a");
            assert("a"@ =~= seq![lower_char(c)]);
        }
        "a"
    } else if u == 66 {
        proof {
            reveal_strlit("b");
            assert("b"@ =~= seq![lower_char(c)]);
        }
        "b"
    } else if u == 67 {
        proof {
            reveal_strlit("c");
            assert("c"@ =~= seq![lower_char(c)]);
        }
        "c"
    } else if u == 68 {
        proof {
            reveal_strlit("d");
            assert("d"@ =~= seq![lower_char(c)]);
        }
        "d"
    } else if u == 69 {
        proof {
            reveal_strlit("e");
            assert("e"@ =~= seq![lower_char(c)]);
        }
        "e"
    } else if u == 70 {
        proof {
            reveal_strlit("f");
            assert("f"@ =~= seq![lower_char(c)]);
        }
        "f"
    } else if u == 71 {
        proof {
            reveal_strlit("g");
            assert("g"@ =~= seq![lower_char(c)]);
        }
        "g"
    } else if u == 72 {
        proof {
            reveal_strlit("h");
            assert("h"@ =~= seq![lower_char(c)]);
        }
        "h"
    } else if u == 73 {
        proof {
            reveal_strlit("i");
            assert("i"@ =~= seq![lower_char(c)]);
        }
        "i"
    } else if u == 74 {
        proof {
            reveal_strlit("j");
            assert("j"@ =~= seq![lower_char(c)]);
        }
        "j"
    } else if u == 75 {
        proof {
            reveal_strlit("k");
            assert("k"@ =~= seq![lower_char(c)]);
        }
        "k"
    } else if u == 76 {
        proof {
            reveal_strlit("l");
            assert("l"@ =~= seq![lower_char(c)]);
        }
        "l"
    } else if u == 77 {
        proof {
            reveal_strlit("m");
            assert("m"@ =~= seq![lower_char(c)]);
        }
        "m"
    } else if u == 78 {
        proof {
            reveal_strlit("n");
            assert("n"@ =~= seq![lower_char(c)]);
        }
        "n"
    } else if u == 79 {
        proof {
            reveal_strlit("o");
            assert("o"@ =~= seq![lower_char(c)]);
        }
        "o"
    } else if u == 80 {
        proof {
            reveal_strlit("p");
            assert("p"@ =~= seq![lower_char(c)]);
        }
        "p"
    } else if u == 81 {
        proof {
            reveal_strlit("q");
            assert("q"@ =~= seq![lower_char(c)]);
        }
        "q"
    } else if u == 82 {
        proof {
            reveal_strlit("r");
            assert("r"@ =~= seq![lower_char(c)]);
        }
        "r"
    } else if u == 83 {
        proof {
            reveal_strlit("s");
            assert("s"@ =~= seq![lower_char(c)]);
        }
        "s"
    } else if u == 84 {
        proof {
            reveal_strlit("t");
            assert("t"@ =~= seq![lower_char(c)]);
        }
        "t"
    } else if u == 85 {
        proof {
            reveal_strlit("u");
            assert("u"@ =~= seq![lower_char(c)]);
        }
        "u"
    } else if u == 86 {
        proof {
            reveal_strlit("v");
            assert("v"@ =~= seq![lower_char(c)]);
        }
        "v"
    } else if u == 87 {
        proof {
            reveal_strlit("w");
            assert("w"@ =~= seq![lower_char(c)]);
        }
        "w"
    } else if u == 88 {
        proof {
            reveal_strlit("x");
            assert("x"@ =~= seq![lower_char(c)]);
        }
        "x"
    } else if u == 89 {
        proof {
            reveal_strlit("y");
            assert("y"@ =~= seq![lower_char(c)]);
        }
        "y"
    } else {
        proof {
            reveal_strlit("z");
            assert("z"@ =~= seq![lower_char(c)]);
        }
        "z"
    }
}

/// ASCII case folding of a whole string, built character by character:
/// upper-case ASCII letters are replaced, every other character is copied
/// from the source unchanged.
pub fn to_ascii_lower(s: &str) -> (r: String)
    ensures
        r@ == lower_seq(s@),
{
    let n = s.unicode_len();
    let mut out = String::new();
    proof {
        assert(out@ =~= lower_seq(s@.take(0)));
    }
    let mut i: usize = 0;
    while i < n
        invariant
            i <= n,
            n == s@.len(),
            out@ == lower_seq(s@.take(i as int)),
        decreases n - i,
    {
        let c = s.get_char(i);
        let u = c as u32;
        if 65 <= u && u <= 90 {
            out.append(lower_str_of(c));
        } else {
            let piece = s.substring_char(i, i + 1);
            proof {
                assert(piece@ =~= seq![s@[i as int]]);
                assert(lower_char(s@[i as int]) == s@[i as int]);
            }
            out.append(piece);
        }
        proof {
            assert(s@.take(i + 1) =~= s@.take(i as int).push(s@[i as int]));
            assert(out@ =~= lower_seq(s@.take(i + 1)));
        }
        i += 1;
    }
    proof {
        assert(s@.take(n as int) =~= s@);
    }
    out
}

/// Executable extraction of the lower-cased extension of a file name.
pub fn extension_of_name(name: &str) -> (r: Option<String>)
    ensures
        match r {
            Some(e) => spec_extension(name@) == Some(e@),
            None => spec_extension(name@) is None,
        },
{
    let n = name.unicode_len();
    proof {
        lemma_dot_idx_bounds(name@);
        assert(name@.take(n as int) =~= name@);
    }
    let mut b: usize = n;
    while b > 0 && name.get_char(b - 1) != '.'
        invariant
            b <= n,
            n == name@.len(),
            dot_idx(name@) == dot_idx(name@.take(b as int)),
            dot_idx(name@.take(b as int)) < b,
        decreases b,
    {
        proof {
            assert(name@.take(b as int).len() > 0);
            assert(name@.take(b as int).last() == name@[b - 1]);
            assert(name@.take(b as int).drop_last() =~= name@.take(b - 1));
            lemma_dot_idx_bounds(name@.take(b - 1));
        }
        b -= 1;
    }
    if b == 0 {
        proof {
            assert(dot_idx(name@) == -1);
        }
        return None;
    }
    proof {
        assert(name@.take(b as int).last() == name@[b - 1]);
        assert(name@[b - 1] == '.');
        assert(dot_idx(name@) == b - 1);
    }
    if b == 1 || b >= n {
        return None;
    }
    let sub = name.substring_char(b, n);
    proof {
        assert(name@.subrange(b as int, n as int) =~= name@.skip(b as int));
    }
    Some(to_ascii_lower(sub))
}

/// The name designates a hidden entry: it starts with a dot.
pub open spec fn starts_with_dot(name: Seq<char>) -> bool {
    name.len() > 0 && name[0] == '.'
}

/// Executable check whether a name starts with a dot.
pub fn name_starts_with_dot(name: &str) -> (r: bool)
    ensures
        r == starts_with_dot(name@),
{
    if name.unicode_len() == 0 {
        return false;
    }
    name.get_char(0) == '.'
}

/// The name is one of the `.` / `..` pseudo-entries.
pub open spec fn is_dot_pseudo(name: Seq<char>) -> bool {
    name =~= seq!['.'] || name =~= seq!['.', '.']
}

/// Executable check for the `.` / `..` pseudo-entries.
pub fn name_is_dot_pseudo(name: &str) -> (r: bool)
    ensures
        r == is_dot_pseudo(name@),
{
    let n = name.unicode_len();
    if n == 1 {
        let r = name.get_char(0) == '.';
        proof {
            if name@[0] == '.' {
                assert(name@ =~= seq!['.']);
            }
        }
        r
    } else if n == 2 {
        let r = name.get_char(0) == '.' && name.get_char(1) == '.';
        proof {
            if name@[0] == '.' && name@[1] == '.' {
                assert(name@ =~= seq!['.', '.']);
            }
        }
        r
    } else {
        false
    }
}

} // verus!
