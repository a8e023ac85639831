//! Character classes, positional search, trimming and line splitting
//! over sequences of characters, together with the executable
//! counterparts used by the parser.

use vstd::prelude::*;

verus! {

/// A decimal digit `'0'..='9'`.
pub open spec fn is_digit_char(c: char) -> bool {
    '0' as int <= c as int && c as int <= '9' as int
}

/// Numeric value of a decimal digit character.
pub open spec fn digit_val(c: char) -> int {
    c as int - '0' as int
}

/// The decimal digit character for a value in `0..=9`.
pub open spec fn digit_char(d: int) -> char {
    if d == 0 {
        '0'
    } else if d == 1 {
        '1'
    } else if d == 2 {
        '2'
    } else if d == 3 {
        '3'
    } else if d == 4 {
        '4'
    } else if d == 5 {
        '5'
    } else if d == 6 {
        '6'
    } else if d == 7 {
        '7'
    } else if d == 8 {
        '8'
    } else {
        '9'
    }
}

pub proof fn lemma_digit_char_val(d: int)
    requires
        0 <= d <= 9,
    ensures
        is_digit_char(digit_char(d)),
        digit_val(digit_char(d)) == d,
        digit_char(d) != '/',
        digit_char(d) != ' ',
        digit_char(d) != ':',
        digit_char(d) != '-',
        digit_char(d) != '\n',
        digit_char(d) != '\r',
{
}

/// The characters with the Unicode `White_Space` property, the set that
/// `str::trim` removes at the ends of a string.
pub open spec fn is_ws_char(c: char) -> bool {
    let u = c as int;
    ||| u == 0x9
    ||| u == 0xA
    ||| u == 0xB
    ||| u == 0xC
    ||| u == 0xD
    ||| u == 0x20
    ||| u == 0x85
    ||| u == 0xA0
    ||| u == 0x1680
    ||| (0x2000 <= u && u <= 0x200A)
    ||| u == 0x2028
    ||| u == 0x2029
    ||| u == 0x202F
    ||| u == 0x205F
    ||| u == 0x3000
}

/// Whether `c` is a Unicode whitespace character.
pub fn is_ws(c: char) -> (r: bool)
    ensures
        r == is_ws_char(c),
{
    let u = c as u32;
    u == 0x9 || u == 0xA || u == 0xB || u == 0xC || u == 0xD || u == 0x20 || u == 0x85 || u == 0xA0
        || u == 0x1680 || (0x2000 <= u && u <= 0x200A) || u == 0x2028 || u == 0x2029 || u == 0x202F
        || u == 0x205F || u == 0x3000
}

/// The least index `i` in `from..s.len()` with `s[i] == c`, or `s.len()`
/// when `c` does not occur there.
pub open spec fn find_from(s: Seq<char>, c: char, from: int) -> int
    decreases s.len() - from,
{
    if from < 0 || from >= s.len() {
        s.len() as int
    } else if s[from] == c {
        from
    } else {
        find_from(s, c, from + 1)
    }
}

pub proof fn lemma_find_from(s: Seq<char>, c: char, from: int)
    requires
        0 <= from <= s.len(),
    ensures
        from <= find_from(s, c, from) <= s.len(),
        find_from(s, c, from) < s.len() ==> s[find_from(s, c, from)] == c,
        forall|k: int| from <= k < find_from(s, c, from) ==> s[k] != c,
    decreases s.len() - from,
{
    if from < s.len() && s[from] != c {
        lemma_find_from(s, c, from + 1);
    }
}

/// The converse characterization: an index below which `c` does not occur,
/// and which holds `c` or is the end, is the result of the search.
pub proof fn lemma_find_from_is(s: Seq<char>, c: char, from: int, i: int)
    requires
        0 <= from <= i <= s.len(),
        forall|k: int| from <= k < i ==> s[k] != c,
        i < s.len() ==> s[i] == c,
    ensures
        find_from(s, c, from) == i,
    decreases i - from,
{
    if from < i {
        lemma_find_from_is(s, c, from + 1, i);
    }
}

/// The least index `i >= from` holding a non-whitespace character, or
/// `s.len()` when everything from `from` on is whitespace.
pub open spec fn first_non_ws(s: Seq<char>, from: int) -> int
    decreases s.len() - from,
{
    if from < 0 || from >= s.len() {
        s.len() as int
    } else if !is_ws_char(s[from]) {
        from
    } else {
        first_non_ws(s, from + 1)
    }
}

pub proof fn lemma_first_non_ws(s: Seq<char>, from: int)
    requires
        0 <= from <= s.len(),
    ensures
        from <= first_non_ws(s, from) <= s.len(),
        first_non_ws(s, from) < s.len() ==> !is_ws_char(s[first_non_ws(s, from)]),
        forall|k: int| from <= k < first_non_ws(s, from) ==> is_ws_char(s[k]),
    decreases s.len() - from,
{
    if from < s.len() && is_ws_char(s[from]) {
        lemma_first_non_ws(s, from + 1);
    }
}

pub proof fn lemma_first_non_ws_is(s: Seq<char>, from: int, i: int)
    requires
        0 <= from <= i <= s.len(),
        forall|k: int| from <= k < i ==> is_ws_char(s[k]),
        i < s.len() ==> !is_ws_char(s[i]),
    ensures
        first_non_ws(s, from) == i,
    decreases i - from,
{
    if from < i {
        lemma_first_non_ws_is(s, from + 1, i);
    }
}

/// The greatest index `i < upto` holding a non-whitespace character, or
/// `-1` when everything below `upto` is whitespace.
pub open spec fn last_non_ws(s: Seq<char>, upto: int) -> int
    decreases upto,
{
    if upto <= 0 || upto > s.len() {
        -1
    } else if !is_ws_char(s[upto - 1]) {
        upto - 1
    } else {
        last_non_ws(s, upto - 1)
    }
}

pub proof fn lemma_last_non_ws(s: Seq<char>, upto: int)
    requires
        0 <= upto <= s.len(),
    ensures
        -1 <= last_non_ws(s, upto) < upto,
        last_non_ws(s, upto) >= 0 ==> !is_ws_char(s[last_non_ws(s, upto)]),
        forall|k: int| last_non_ws(s, upto) < k < upto ==> is_ws_char(s[k]),
    decreases upto,
{
    if upto > 0 && is_ws_char(s[upto - 1]) {
        lemma_last_non_ws(s, upto - 1);
    }
}

pub proof fn lemma_last_non_ws_is(s: Seq<char>, upto: int, i: int)
    requires
        0 <= upto <= s.len(),
        -1 <= i < upto,
        forall|k: int| i < k < upto ==> is_ws_char(s[k]),
        i >= 0 ==> !is_ws_char(s[i]),
    ensures
        last_non_ws(s, upto) == i,
    decreases upto,
{
    if i < upto - 1 {
        lemma_last_non_ws_is(s, upto - 1, i);
    }
}

/// The sequence with leading and trailing whitespace removed, as
/// `str::trim` leaves it.
pub open spec fn trim_spec(s: Seq<char>) -> Seq<char> {
    let a = first_non_ws(s, 0);
    if a == s.len() {
        Seq::empty()
    } else {
        s.subrange(a, last_non_ws(s, s.len() as int) + 1)
    }
}

/// A trimmed, non-empty sequence starts and ends with non-whitespace.
pub proof fn lemma_trimmed_ends(s: Seq<char>)
    requires
        trim_spec(s) == s,
        s.len() > 0,
    ensures
        !is_ws_char(s[0]),
        !is_ws_char(s[s.len() - 1]),
{
    lemma_first_non_ws(s, 0);
    lemma_last_non_ws(s, s.len() as int);
    let a = first_non_ws(s, 0);
    if a == s.len() {
        assert(trim_spec(s).len() == 0);
    } else {
        let b = last_non_ws(s, s.len() as int);
        assert(trim_spec(s).len() == b + 1 - a);
        assert(a == 0 && b == s.len() - 1) by {
            if a > 0 || b < s.len() - 1 {
                assert(trim_spec(s).len() < s.len());
            }
        }
    }
}

/// Prepending whitespace does not change the trimmed value.
pub proof fn lemma_trim_drop_leading_ws(s: Seq<char>)
    requires
        s.len() > 0,
        is_ws_char(s[0]),
    ensures
        trim_spec(s) == trim_spec(s.subrange(1, s.len() as int)),
{
    let t = s.subrange(1, s.len() as int);
    lemma_first_non_ws(s, 0);
    lemma_first_non_ws(t, 0);
    lemma_last_non_ws(s, s.len() as int);
    lemma_last_non_ws(t, t.len() as int);
    let a = first_non_ws(s, 0);
    assert(a >= 1);
    lemma_first_non_ws_is(t, 0, a - 1);
    if a == s.len() {
        assert(first_non_ws(t, 0) == t.len());
    } else {
        let b = last_non_ws(s, s.len() as int);
        assert(b >= a >= 1) by {
            if b < a {
                assert(is_ws_char(s[a]));
            }
        }
        lemma_last_non_ws_is(t, t.len() as int, b - 1);
        assert(trim_spec(s) =~= trim_spec(t));
    }
}

/// A line terminated by `"\r\n"` loses the carriage return, as
/// `str::lines` strips it.
pub open spec fn strip_cr(l: Seq<char>) -> Seq<char> {
    if l.len() > 0 && l[l.len() - 1] == '\r' {
        l.subrange(0, l.len() - 1)
    } else {
        l
    }
}

/// The lines of a text, exactly as `str::lines` yields them: pieces
/// separated by `'\n'`, a terminated piece losing a final `'\r'`, and no
/// empty piece after a final newline.
pub open spec fn spec_lines(s: Seq<char>) -> Seq<Seq<char>>
    decreases s.len(),
{
    if s.len() == 0 {
        Seq::empty()
    } else {
        let i = find_from(s, '\n', 0);
        if i < 0 || i >= s.len() {
            seq![s]
        } else {
            seq![strip_cr(s.subrange(0, i))] + spec_lines(s.subrange(i + 1, s.len() as int))
        }
    }
}

/// Splitting a text whose first newline stands at `i` peels off one line.
pub proof fn lemma_spec_lines_step(s: Seq<char>, i: int)
    requires
        0 <= i <= s.len(),
        0 < s.len(),
        forall|k: int| 0 <= k < i ==> s[k] != '\n',
        i < s.len() ==> s[i] == '\n',
    ensures
        i == s.len() ==> spec_lines(s) == seq![s],
        i < s.len() ==> spec_lines(s) == seq![strip_cr(s.subrange(0, i))] + spec_lines(
            s.subrange(i + 1, s.len() as int),
        ),
{
    lemma_find_from_is(s, '\n', 0, i);
}

/// Lines distribute over concatenation at a newline boundary.
pub proof fn lemma_spec_lines_append(x: Seq<char>, y: Seq<char>)
    requires
        x.len() > 0,
        x[x.len() - 1] == '\n',
    ensures
        spec_lines(x + y) == spec_lines(x) + spec_lines(y),
    decreases x.len(),
{
    let s = x + y;
    lemma_find_from(x, '\n', 0);
    let i = find_from(x, '\n', 0);
    assert(i < x.len()) by {
        if i == x.len() {
            assert(x[x.len() - 1] != '\n');
        }
    }
    assert(forall|k: int| 0 <= k < i ==> s[k] != '\n');
    assert(s[i] == '\n');
    lemma_spec_lines_step(s, i);
    lemma_spec_lines_step(x, i);
    assert(s.subrange(0, i) =~= x.subrange(0, i));
    if i == x.len() - 1 {
        assert(x.subrange(i + 1, x.len() as int) =~= Seq::<char>::empty());
        assert(s.subrange(i + 1, s.len() as int) =~= y);
        assert(spec_lines(x) =~= seq![strip_cr(x.subrange(0, i))]);
        assert(spec_lines(s) =~= spec_lines(x) + spec_lines(y));
    } else {
        let x2 = x.subrange(i + 1, x.len() as int);
        assert(x2.len() > 0 && x2[x2.len() - 1] == '\n');
        assert(s.subrange(i + 1, s.len() as int) =~= x2 + y);
        lemma_spec_lines_append(x2, y);
        assert(spec_lines(s) =~= spec_lines(x) + spec_lines(y));
    }
}

/// The line starting at `c` of a text: it reaches to the first newline
/// at or after `c` (at `i`), and loses a final carriage return when the
/// newline was found.
pub proof fn lemma_suffix_lines(s: Seq<char>, c: int, i: int, e: int)
    requires
        0 <= c <= i <= s.len(),
        c < s.len(),
        c <= e <= i,
        forall|k: int| c <= k < i ==> s[k] != '\n',
        i < s.len() ==> s[i] == '\n',
        e == if i < s.len() && i > c && s[i - 1] == '\r' {
            i - 1
        } else {
            i
        },
    ensures
        spec_lines(s.subrange(c, s.len() as int)) == seq![s.subrange(c, e)] + (if i < s.len() {
            spec_lines(s.subrange(i + 1, s.len() as int))
        } else {
            Seq::<Seq<char>>::empty()
        }),
{
    let suffix = s.subrange(c, s.len() as int);
    assert(forall|k: int| 0 <= k < i - c ==> suffix[k] != '\n');
    lemma_spec_lines_step(suffix, i - c);
    if i < s.len() {
        assert(suffix.subrange(0, i - c) =~= s.subrange(c, i));
        assert(strip_cr(s.subrange(c, i)) =~= s.subrange(c, e));
        assert(suffix.subrange(i - c + 1, suffix.len() as int) =~= s.subrange(
            i + 1,
            s.len() as int,
        ));
        assert(spec_lines(suffix) =~= seq![s.subrange(c, e)] + spec_lines(
            s.subrange(i + 1, s.len() as int),
        ));
    } else {
        assert(suffix =~= s.subrange(c, e));
        assert(spec_lines(suffix) =~= seq![s.subrange(c, e)]
            + Seq::<Seq<char>>::empty());
    }
}

/// A single newline-terminated line splits into just that line.
pub proof fn lemma_spec_lines_single(l: Seq<char>)
    requires
        forall|k: int| 0 <= k < l.len() ==> l[k] != '\n',
        l.len() > 0 ==> l[l.len() - 1] != '\r',
    ensures
        spec_lines(l + seq!['\n']) == seq![l],
{
    let x = l + seq!['\n'];
    assert(forall|k: int| 0 <= k < l.len() ==> x[k] != '\n');
    assert(x[l.len() as int] == '\n');
    lemma_spec_lines_step(x, l.len() as int);
    assert(x.subrange(0, l.len() as int) =~= l);
    assert(x.subrange(l.len() as int + 1, x.len() as int) =~= Seq::<char>::empty());
    assert(strip_cr(l) == l);
    assert(spec_lines(x) =~= seq![l]);
}

} // verus!
