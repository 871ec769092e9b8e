//! Character- and line-level text utilities: ASCII case folding, whitespace
//! trimming, and splitting a text into lines on the newline character.

use vstd::prelude::*;

verus! {

/// The whitespace characters that trimming removes from the ends of keys
/// and values (the ASCII whitespace set).
pub open spec fn is_blank(c: char) -> bool {
    c == ' ' || c == '\t' || c == '\n' || c == '\r' || c == '\x0c'
}

/// Lower-cases a single character; only ASCII letters are folded.
pub open spec fn lower_char(c: char) -> char {
    if 'A' as u32 <= c as u32 && c as u32 <= 'Z' as u32 {
        ((c as u32) + 32) as char
    } else {
        c
    }
}

/// Lower-cases a character sequence, ASCII letters only.
pub open spec fn ascii_lower(s: Seq<char>) -> Seq<char> {
    s.map_values(|c: char| lower_char(c))
}

/// The first index `j >= from` with `s[j] == c`, or `s.len()` when no such
/// index exists.
pub open spec fn char_index_from(s: Seq<char>, c: char, from: int) -> int
    decreases s.len() - from,
{
    if from < 0 || from >= s.len() {
        s.len() as int
    } else if s[from] == c {
        from
    } else {
        char_index_from(s, c, from + 1)
    }
}

/// `char_index_from` returns an index in `[from, s.len()]`; a hit carries the
/// character, and everything strictly before the hit differs from it.
pub proof fn lemma_char_index_from(s: Seq<char>, c: char, from: int)
    requires
        0 <= from <= s.len(),
    ensures
        from <= char_index_from(s, c, from) <= s.len(),
        char_index_from(s, c, from) < s.len() ==> s[char_index_from(s, c, from)] == c,
        forall|j: int|
            from <= j < char_index_from(s, c, from) ==> s[j] != c,
    decreases s.len() - from,
{
    if from < s.len() && s[from] != c {
        lemma_char_index_from(s, c, from + 1);
    }
}

/// Dropping a prefix shifts the first hit by the prefix length.
pub proof fn lemma_char_index_skip(s: Seq<char>, c: char, p: int, from: int)
    requires
        0 <= p <= from <= s.len(),
    ensures
        char_index_from(s.skip(p), c, from - p) == char_index_from(s, c, from) - p,
    decreases s.len() - from,
{
    if from < s.len() {
        assert(s.skip(p)[from - p] == s[from]);
        if s[from] != c {
            lemma_char_index_skip(s, c, p, from + 1);
        }
    }
}

/// The part of `s` that remains after removing leading blanks.
pub open spec fn trim_front(s: Seq<char>) -> Seq<char>
    decreases s.len(),
{
    if s.len() > 0 && is_blank(s[0]) {
        trim_front(s.drop_first())
    } else {
        s
    }
}

/// The part of `s` that remains after removing trailing blanks.
pub open spec fn trim_back(s: Seq<char>) -> Seq<char>
    decreases s.len(),
{
    if s.len() > 0 && is_blank(s.last()) {
        trim_back(s.drop_last())
    } else {
        s
    }
}

/// `s` with surrounding blanks removed.
pub open spec fn trim(s: Seq<char>) -> Seq<char> {
    trim_back(trim_front(s))
}

/// When the first `a` characters are blank and the character at `a` (if any)
/// is not, front trimming drops exactly those `a` characters.
pub proof fn lemma_trim_front_is_skip(s: Seq<char>, a: int)
    requires
        0 <= a <= s.len(),
        forall|j: int| 0 <= j < a ==> is_blank(s[j]),
        a < s.len() ==> !is_blank(s[a]),
    ensures
        trim_front(s) == s.skip(a),
    decreases a,
{
    if a == 0 {
        if s.len() > 0 {
            assert(!is_blank(s[0]));
        }
        assert(s.skip(0) =~= s);
    } else {
        assert(is_blank(s[0]));
        let t = s.drop_first();
        assert(forall|j: int| 0 <= j < a - 1 ==> is_blank(#[trigger] t[j]));
        lemma_trim_front_is_skip(t, a - 1);
        assert(t.skip(a - 1) =~= s.skip(a));
    }
}

/// When the characters from `b` on are blank and the character at `b - 1`
/// (if any) is not, back trimming keeps exactly the first `b` characters.
pub proof fn lemma_trim_back_is_take(s: Seq<char>, b: int)
    requires
        0 <= b <= s.len(),
        forall|j: int| b <= j < s.len() ==> is_blank(s[j]),
        b > 0 ==> !is_blank(s[b - 1]),
    ensures
        trim_back(s) == s.take(b),
    decreases s.len() - b,
{
    if b == s.len() {
        if s.len() > 0 {
            assert(!is_blank(s.last()));
        }
        assert(s.take(b) =~= s);
    } else {
        assert(is_blank(s.last()));
        let t = s.drop_last();
        lemma_trim_back_is_take(t, b);
        assert(t.take(b) =~= s.take(b));
    }
}

/// Finds the first occurrence of `c` in `s` at or after `from`.
pub fn find_char(s: &str, c: char, from: usize) -> (r: usize)
    requires
        from <= s@.len(),
    ensures
        r == char_index_from(s@, c, from as int),
        from <= r <= s@.len(),
        r < s@.len() ==> s@[r as int] == c,
        forall|j: int| from <= j < r ==> s@[j] != c,
{
    let n = s.unicode_len();
    let mut i = from;
    while i < n
        invariant
            from <= i <= n,
            n == s@.len(),
            char_index_from(s@, c, from as int) == char_index_from(s@, c, i as int),
        decreases n - i,
    {
        if s.get_char(i) == c {
            proof {
                lemma_char_index_from(s@, c, from as int);
            }
            return i;
        }
        i += 1;
    }
    proof {
        lemma_char_index_from(s@, c, from as int);
    }
    n
}

/// Decides whether lower-casing `a` yields `b`.
pub fn char_eq_lower(a: char, b: char) -> (r: bool)
    ensures
        r == (lower_char(a) == b),
{
    let au = a as u32;
    let bu = b as u32;
    if 65 <= au && au <= 90 {
        proof {
            assert(((au + 32) as char) as u32 == au + 32);
        }
        au + 32 == bu
    } else {
        au == bu
    }
}

/// Decides whether `s` lower-cases (ASCII) to `label`.
pub fn matches_lower(s: &str, label: &str) -> (r: bool)
    ensures
        r == (ascii_lower(s@) == label@),
{
    let n = s.unicode_len();
    let m = label.unicode_len();
    if n != m {
        assert(ascii_lower(s@).len() != label@.len());
        return false;
    }
    let mut i: usize = 0;
    while i < n
        invariant
            0 <= i <= n,
            n == s@.len(),
            n == label@.len(),
            forall|j: int| 0 <= j < i ==> ascii_lower(s@)[j] == label@[j],
        decreases n - i,
    {
        if !char_eq_lower(s.get_char(i), label.get_char(i)) {
            assert(ascii_lower(s@)[i as int] != label@[i as int]);
            return false;
        }
        i += 1;
    }
    proof {
        assert(ascii_lower(s@) =~= label@);
    }
    true
}

/// Copies `s[from..to]` with surrounding blanks removed into a fresh string.
pub fn trim_range(s: &str, from: usize, to: usize) -> (r: String)
    requires
        from <= to <= s@.len(),
    ensures
        r@ == trim(s@.subrange(from as int, to as int)),
{
    let ghost sub = s@.subrange(from as int, to as int);
    let mut a = from;
    while a < to && is_blank_char(s.get_char(a))
        invariant
            from <= a <= to <= s@.len(),
            forall|j: int| from <= j < a ==> is_blank(s@[j]),
        decreases to - a,
    {
        a += 1;
    }
    let mut b = to;
    while b > a && is_blank_char(s.get_char(b - 1))
        invariant
            a <= b <= to <= s@.len(),
            forall|j: int| b <= j < to ==> is_blank(s@[j]),
        decreases b,
    {
        b -= 1;
    }
    proof {
        assert(forall|j: int| 0 <= j < a - from ==> is_blank(#[trigger] sub[j]));
        if a < to {
            assert(!is_blank(sub[a - from]));
        }
        lemma_trim_front_is_skip(sub, a - from);
        let fronted = sub.skip(a - from);
        assert(forall|j: int| b - a <= j < fronted.len() ==> is_blank(#[trigger] fronted[j]));
        if b > a {
            assert(fronted[b - a - 1] == s@[b - 1]);
            assert(!is_blank(fronted[b - a - 1]));
        }
        lemma_trim_back_is_take(fronted, b - a);
        assert(fronted.take(b - a) =~= s@.subrange(a as int, b as int));
    }
    s.substring_char(a, b).to_owned()
}

/// Decides whether `c` is one of the blank characters.
pub fn is_blank_char(c: char) -> (r: bool)
    ensures
        r == is_blank(c),
{
    c == ' ' || c == '\t' || c == '\n' || c == '\r' || c == '\x0c'
}

/// The lines of `t`, split on the newline character. A text without a
/// newline is a single line; a trailing newline yields a final empty line.
pub open spec fn split_lines(t: Seq<char>) -> Seq<Seq<char>>
    decreases t.len(),
{
    let i = char_index_from(t, '\n', 0);
    if 0 <= i && i < t.len() {
        seq![t.take(i)] + split_lines(t.skip(i + 1))
    } else {
        seq![t]
    }
}

/// Splits `t` into its lines.
pub fn split_text_lines(t: &str) -> (lines: Vec<String>)
    ensures
        lines.deep_view() == split_lines(t@),
{
    let n = t.unicode_len();
    let mut lines: Vec<String> = Vec::new();
    let mut pos: usize = 0;
    proof {
        assert(t@.skip(0) =~= t@);
        assert(lines.deep_view() =~= Seq::<Seq<char>>::empty());
        assert(lines.deep_view() + split_lines(t@) =~= split_lines(t@));
    }
    loop
        invariant
            pos <= n,
            n == t@.len(),
            split_lines(t@) =~= lines.deep_view() + split_lines(t@.skip(pos as int)),
        decreases n - pos,
    {
        let i = find_char(t, '\n', pos);
        proof {
            lemma_char_index_skip(t@, '\n', pos as int, pos as int);
            assert(t@.skip(pos as int).take(i - pos) =~= t@.subrange(pos as int, i as int));
        }
        let line = t.substring_char(pos, i).to_owned();
        lines.push(line);
        if i == n {
            proof {
                assert(split_lines(t@.skip(pos as int)) =~= seq![t@.subrange(pos as int, i as int)]);
                assert(lines.deep_view() =~= split_lines(t@));
            }
            return lines;
        }
        proof {
            assert(t@.skip(pos as int).skip(i + 1 - pos) =~= t@.skip(i + 1));
        }
        pos = i + 1;
    }
}

} // verus!
