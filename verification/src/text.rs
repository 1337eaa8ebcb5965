use vstd::prelude::*;
use vstd::utf8::*;

use crate::strings::{string_insert, string_replace_range};

verus! {

/// Number of bytes in the UTF-8 encoding of `c`.
pub open spec fn char_width(c: char) -> nat {
    encode_scalar(c as u32).len()
}

/// Number of bytes in the UTF-8 encoding of `s`.
pub open spec fn byte_len(s: Seq<char>) -> nat {
    encode_utf8(s).len()
}

/// Byte position at which the character with index `k` starts.
pub open spec fn byte_offset(s: Seq<char>, k: int) -> nat {
    byte_len(s.take(k))
}

/// `b` is the byte position at which some character starts, or the end of `s`.
pub open spec fn is_boundary(s: Seq<char>, b: int) -> bool {
    exists|k: int| 0 <= k <= s.len() && #[trigger] byte_offset(s, k) == b
}

/// The encoding of two texts is the two encodings side by side.
pub proof fn lemma_encode_concat(a: Seq<char>, b: Seq<char>)
    ensures
        encode_utf8(a + b) == encode_utf8(a) + encode_utf8(b),
    decreases a.len(),
{
    if a.len() == 0 {
        assert(a + b =~= b);
        assert(encode_utf8(a) =~= Seq::<u8>::empty());
        assert(encode_utf8(a) + encode_utf8(b) =~= encode_utf8(b));
    } else {
        assert((a + b).drop_first() =~= a.drop_first() + b);
        assert((a + b)[0] == a[0]);
        lemma_encode_concat(a.drop_first(), b);
        assert(encode_utf8(a + b) =~= encode_scalar(a[0] as u32) + (encode_utf8(a.drop_first())
            + encode_utf8(b)));
    }
}

/// A character takes one to four bytes, by the range of its code point.
pub proof fn lemma_char_width(c: char)
    ensures
        1 <= char_width(c) <= 4,
        (c as u32) < 0x80 ==> char_width(c) == 1,
        0x80 <= (c as u32) < 0x800 ==> char_width(c) == 2,
        0x800 <= (c as u32) < 0x10000 ==> char_width(c) == 3,
        0x10000 <= (c as u32) ==> char_width(c) == 4,
{
    char_is_scalar(c);
}

/// A one-character text is as long as the character is wide.
pub proof fn lemma_encode_single(c: char)
    ensures
        byte_len(seq![c]) == char_width(c),
{
    let one = seq![c];
    assert(one.drop_first() =~= Seq::<char>::empty());
    assert(encode_utf8(one.drop_first()) =~= Seq::<u8>::empty());
    assert(one[0] == c);
    assert(encode_utf8(one) =~= encode_scalar(c as u32) + Seq::<u8>::empty());
}

/// Each character adds its width to the byte position.
pub proof fn lemma_offset_step(s: Seq<char>, k: int)
    requires
        0 <= k < s.len(),
    ensures
        byte_offset(s, k + 1) == byte_offset(s, k) + char_width(s[k]),
{
    assert(s.take(k + 1) =~= s.take(k) + seq![s[k]]);
    lemma_encode_concat(s.take(k), seq![s[k]]);
    lemma_encode_single(s[k]);
}

/// The first character starts at byte 0.
pub proof fn lemma_offset_zero(s: Seq<char>)
    ensures
        byte_offset(s, 0) == 0,
{
    assert(s.take(0) =~= Seq::<char>::empty());
}

/// The position past the last character is the byte length.
pub proof fn lemma_offset_full(s: Seq<char>)
    ensures
        byte_offset(s, s.len() as int) == byte_len(s),
{
    assert(s.take(s.len() as int) =~= s);
}

/// Byte positions grow strictly with character indices, at least by one per character.
pub proof fn lemma_offset_mono(s: Seq<char>, i: int, j: int)
    requires
        0 <= i <= j <= s.len(),
    ensures
        byte_offset(s, i) + (j - i) <= byte_offset(s, j),
        byte_offset(s, j) <= byte_offset(s, i) + 4 * (j - i),
    decreases j - i,
{
    if i < j {
        lemma_offset_mono(s, i, j - 1);
        lemma_offset_step(s, j - 1);
        lemma_char_width(s[j - 1]);
    }
}

/// A prefix shares the byte positions of the whole sequence.
pub proof fn lemma_offset_prefix(s: Seq<char>, n: int, k: int)
    requires
        0 <= k <= n <= s.len(),
    ensures
        byte_offset(s.take(n), k) == byte_offset(s, k),
{
    assert(s.take(n).take(k) =~= s.take(k));
}

/// The character index that starts at byte position `b`.
pub proof fn lemma_boundary_unique(s: Seq<char>, i: int, j: int)
    requires
        0 <= i <= s.len(),
        0 <= j <= s.len(),
        byte_offset(s, i) == byte_offset(s, j),
    ensures
        i == j,
{
    if i < j {
        lemma_offset_mono(s, i, j);
    } else if j < i {
        lemma_offset_mono(s, j, i);
    }
}

/// Appending a character adds its width to the byte length.
pub proof fn lemma_byte_len_push(s: Seq<char>, c: char)
    ensures
        byte_len(s.push(c)) == byte_len(s) + char_width(c),
{
    assert(s.push(c) =~= s + seq![c]);
    lemma_encode_concat(s, seq![c]);
    lemma_encode_single(c);
}

/// Dropping the first character does not lengthen the text.
pub proof fn lemma_byte_len_drop_first(s: Seq<char>)
    requires
        s.len() > 0,
    ensures
        byte_len(s.drop_first()) <= byte_len(s),
{
    assert(s =~= seq![s[0]] + s.drop_first());
    lemma_encode_concat(seq![s[0]], s.drop_first());
}

/// The last character accounts for its width of the byte length.
pub proof fn lemma_byte_len_drop_last(s: Seq<char>)
    requires
        s.len() > 0,
    ensures
        byte_len(s.drop_last()) + char_width(s.last()) == byte_len(s),
{
    assert(s.drop_last().push(s.last()) =~= s);
    lemma_byte_len_push(s.drop_last(), s.last());
}

/// Inserting a character adds its width to the byte length.
pub proof fn lemma_byte_len_insert(s: Seq<char>, k: int, c: char)
    requires
        0 <= k <= s.len(),
    ensures
        byte_len(s.insert(k, c)) == byte_len(s) + char_width(c),
{
    assert(s =~= s.take(k) + s.skip(k));
    lemma_encode_concat(s.take(k), s.skip(k));
    assert(s.insert(k, c) =~= s.take(k) + (seq![c] + s.skip(k)));
    lemma_encode_concat(s.take(k), seq![c] + s.skip(k));
    lemma_encode_concat(seq![c], s.skip(k));
    lemma_encode_single(c);
}

/// Removing a character takes its width off the byte length.
pub proof fn lemma_byte_len_remove(s: Seq<char>, k: int)
    requires
        0 <= k < s.len(),
    ensures
        byte_len(s.remove(k)) + char_width(s[k]) == byte_len(s),
{
    lemma_byte_len_insert(s.remove(k), k, s[k]);
    assert(s.remove(k).insert(k, s[k]) =~= s);
}

/// Byte width of a character, as `char::len_utf8` gives it.
pub fn utf8_width(c: char) -> (n: usize)
    ensures
        n == char_width(c),
{
    proof {
        lemma_char_width(c);
    }
    let v = c as u32;
    if v < 0x80 {
        1
    } else if v < 0x800 {
        2
    } else if v < 0x10000 {
        3
    } else {
        4
    }
}

/// The character index whose first byte is at position `b`.
pub open spec fn char_index(s: Seq<char>, b: int) -> int {
    choose|k: int| 0 <= k <= s.len() && byte_offset(s, k) == b
}

/// The character index of the start of character `k` is `k`.
pub proof fn lemma_char_index(s: Seq<char>, k: int)
    requires
        0 <= k <= s.len(),
    ensures
        char_index(s, byte_offset(s, k) as int) == k,
        is_boundary(s, byte_offset(s, k) as int),
{
    let b = byte_offset(s, k) as int;
    assert(0 <= k <= s.len() && byte_offset(s, k) == b);
    let j = char_index(s, b);
    lemma_boundary_unique(s, j, k);
}

/// The witness of a boundary is its character index.
pub proof fn lemma_boundary_index(s: Seq<char>, b: int)
    requires
        is_boundary(s, b),
    ensures
        0 <= char_index(s, b) <= s.len(),
        byte_offset(s, char_index(s, b)) == b,
{
}

/// The cursor position, limited to the end of the text.
pub open spec fn clamp_cursor(s: Seq<char>, cursor: int) -> int {
    if cursor < byte_len(s) {
        cursor
    } else {
        byte_len(s) as int
    }
}

/// The cursor, once limited to the end of the text, lies on a character boundary.
pub open spec fn cursor_ok(s: Seq<char>, cursor: int) -> bool {
    is_boundary(s, clamp_cursor(s, cursor))
}

/// The text fits in memory: no allocation holds more than `isize::MAX` bytes.
pub open spec fn fits(s: Seq<char>) -> bool {
    byte_len(s) <= isize::MAX
}

/// Number of line breaks in `s`.
pub open spec fn count_newlines(s: Seq<char>) -> nat
    decreases s.len(),
{
    if s.len() == 0 {
        0
    } else {
        count_newlines(s.drop_last()) + if s.last() == '\n' {
            1nat
        } else {
            0nat
        }
    }
}

/// Number of characters after the last line break of `s`.
pub open spec fn trailing_column(s: Seq<char>) -> nat
    decreases s.len(),
{
    if s.len() == 0 {
        0
    } else if s.last() == '\n' {
        0
    } else {
        trailing_column(s.drop_last()) + 1
    }
}

/// Zero-based line of the cursor.
pub open spec fn line_of(s: Seq<char>, cursor: int) -> nat {
    count_newlines(s.take(char_index(s, clamp_cursor(s, cursor))))
}

/// Zero-based column of the cursor, counted in characters.
pub open spec fn column_of(s: Seq<char>, cursor: int) -> nat {
    trailing_column(s.take(char_index(s, clamp_cursor(s, cursor))))
}

/// Number of lines as `str::lines` yields them, and at least one.
pub open spec fn total_lines(s: Seq<char>) -> nat {
    let n = count_newlines(s) + if s.len() > 0 && s.last() != '\n' {
        1nat
    } else {
        0nat
    };
    if n == 0 {
        1
    } else {
        n
    }
}

/// There are no more line breaks, nor trailing columns, than characters.
proof fn lemma_counts_bounded(s: Seq<char>)
    ensures
        count_newlines(s) <= s.len(),
        trailing_column(s) <= s.len(),
    decreases s.len(),
{
    if s.len() > 0 {
        lemma_counts_bounded(s.drop_last());
    }
}

/// A text within memory has no more characters than bytes.
proof fn lemma_fits_len(s: Seq<char>)
    requires
        fits(s),
    ensures
        s.len() <= byte_len(s) <= isize::MAX,
{
    lemma_offset_full(s);
    lemma_offset_zero(s);
    lemma_offset_mono(s, 0, s.len() as int);
}

/// Counts the line breaks, and the characters after the last of them, before byte `index`.
fn scan_prefix(content: &str, index: usize) -> (r: (usize, usize))
    requires
        fits(content@),
        index <= byte_len(content@),
        is_boundary(content@, index as int),
    ensures
        r.0 == count_newlines(content@.take(char_index(content@, index as int))),
        r.1 == trailing_column(content@.take(char_index(content@, index as int))),
{
    let ghost s = content@;
    let ghost k = char_index(s, index as int);
    proof {
        lemma_fits_len(s);
        lemma_offset_zero(s);
        assert(s.take(0) =~= Seq::<char>::empty());
    }
    let mut byte: usize = 0;
    let mut lines: usize = 0;
    let mut column: usize = 0;
    for ch in it: content.chars()
        invariant
            it.seq() == s,
            s == content@,
            s.len() <= usize::MAX,
            k == char_index(s, index as int),
            0 <= k <= s.len(),
            byte_offset(s, k) == index,
            byte == byte_offset(s, it.index()),
            byte <= index,
            lines == count_newlines(s.take(it.index())),
            column == trailing_column(s.take(it.index())),
            lines <= it.index(),
            column <= it.index(),
    {
        let ghost i = it.index();
        if byte == index {
            proof {
                lemma_boundary_unique(s, i, k);
            }
            return (lines, column);
        }
        proof {
            if k <= i {
                lemma_offset_mono(s, k, i);
            }
            lemma_offset_mono(s, i + 1, k);
            lemma_offset_step(s, i);
            assert(s.take(i + 1).drop_last() =~= s.take(i));
            assert(s.take(i + 1).last() == ch);
        }
        byte = byte + utf8_width(ch);
        if ch == '\n' {
            lines = lines + 1;
            column = 0;
        } else {
            column = column + 1;
        }
    }
    proof {
        lemma_offset_full(s);
        lemma_boundary_unique(s, s.len() as int, k);
    }
    (lines, column)
}

/// Zero-based line of the cursor, counting the line breaks before it.
pub fn cursor_line(content: &str, cursor: usize) -> (line: usize)
    requires
        fits(content@),
        cursor_ok(content@, cursor as int),
    ensures
        line == line_of(content@, cursor as int),
{
    let len = content.len();
    let index = if cursor < len { cursor } else { len };
    scan_prefix(content, index).0
}

/// Zero-based column of the cursor, counting the characters since the last line break.
pub fn cursor_column(content: &str, cursor: usize) -> (column: usize)
    requires
        fits(content@),
        cursor_ok(content@, cursor as int),
    ensures
        column == column_of(content@, cursor as int),
{
    let len = content.len();
    let index = if cursor < len { cursor } else { len };
    scan_prefix(content, index).1
}

/// Number of lines of the text, and at least one.
pub fn line_count(content: &str) -> (n: usize)
    requires
        fits(content@),
    ensures
        n == total_lines(content@),
{
    let ghost s = content@;
    proof {
        lemma_fits_len(s);
        assert(s.take(0) =~= Seq::<char>::empty());
    }
    let mut newlines: usize = 0;
    let mut last_open = false;
    for ch in it: content.chars()
        invariant
            it.seq() == s,
            s == content@,
            s.len() <= usize::MAX,
            newlines == count_newlines(s.take(it.index())),
            newlines + (if last_open { 1int } else { 0int }) <= it.index(),
            last_open == (it.index() > 0 && s[it.index() - 1] != '\n'),
    {
        let ghost i = it.index();
        proof {
            assert(s.take(i + 1).drop_last() =~= s.take(i));
            assert(s.take(i + 1).last() == ch);
        }
        if ch == '\n' {
            newlines = newlines + 1;
            last_open = false;
        } else {
            last_open = true;
        }
    }
    proof {
        assert(s.take(s.len() as int) =~= s);
    }
    let n = if last_open { newlines + 1 } else { newlines };
    if n == 0 { 1 } else { n }
}

/// `p` is the character index at which line `line` begins.
pub open spec fn is_line_start(s: Seq<char>, p: int, line: nat) -> bool {
    &&& 0 <= p <= s.len()
    &&& count_newlines(s.take(p)) == line
    &&& (p == 0 || s[p - 1] == '\n')
}

/// The text has a line with this number.
pub open spec fn has_line(s: Seq<char>, line: nat) -> bool {
    exists|p: int| is_line_start(s, p, line)
}

/// Character index at which line `line` begins.
pub open spec fn line_start(s: Seq<char>, line: nat) -> int {
    choose|p: int| is_line_start(s, p, line)
}

/// Number of characters from index `p` up to the next line break or the end.
pub open spec fn run_len(s: Seq<char>, p: int) -> nat
    decreases s.len() - p,
{
    if p < 0 || p >= s.len() || s[p] == '\n' {
        0
    } else {
        run_len(s, p + 1) + 1
    }
}

/// Byte position of column `column` of line `line`: the column is limited to the
/// line's length, and a line past the last one gives the end of the text.
pub open spec fn position_of(s: Seq<char>, line: nat, column: nat) -> nat {
    if has_line(s, line) {
        let p = line_start(s, line);
        byte_offset(s, p + if column < run_len(s, p) {
            column as int
        } else {
            run_len(s, p) as int
        })
    } else {
        byte_len(s)
    }
}

/// Line breaks and trailing column, one character further.
pub proof fn lemma_count_step(s: Seq<char>, i: int)
    requires
        0 <= i < s.len(),
    ensures
        count_newlines(s.take(i + 1)) == count_newlines(s.take(i)) + if s[i] == '\n' {
            1nat
        } else {
            0nat
        },
        trailing_column(s.take(i + 1)) == if s[i] == '\n' {
            0
        } else {
            trailing_column(s.take(i)) + 1
        },
{
    assert(s.take(i + 1).drop_last() =~= s.take(i));
    assert(s.take(i + 1).last() == s[i]);
}

/// A longer prefix holds at least as many line breaks.
pub proof fn lemma_count_mono(s: Seq<char>, i: int, j: int)
    requires
        0 <= i <= j <= s.len(),
    ensures
        count_newlines(s.take(i)) <= count_newlines(s.take(j)),
    decreases j - i,
{
    if i < j {
        lemma_count_mono(s, i, j - 1);
        lemma_count_step(s, j - 1);
    }
}

/// The whole text as a prefix of itself.
pub proof fn lemma_count_full(s: Seq<char>)
    ensures
        count_newlines(s.take(s.len() as int)) == count_newlines(s),
{
    assert(s.take(s.len() as int) =~= s);
}

/// A line starts at one place only.
pub proof fn lemma_line_start_unique(s: Seq<char>, p: int, q: int, line: nat)
    requires
        is_line_start(s, p, line),
        is_line_start(s, q, line),
    ensures
        p == q,
{
    if p < q {
        lemma_count_mono(s, p, q - 1);
        lemma_count_step(s, q - 1);
    } else if q < p {
        lemma_count_mono(s, q, p - 1);
        lemma_count_step(s, p - 1);
    }
}

/// Pins `line_start` down once a start of the line is known.
pub proof fn lemma_line_start(s: Seq<char>, p: int, line: nat)
    requires
        is_line_start(s, p, line),
    ensures
        has_line(s, line),
        line_start(s, line) == p,
{
    assert(is_line_start(s, p, line));
    lemma_line_start_unique(s, p, line_start(s, line), line);
}

/// There is no line past the last line break.
pub proof fn lemma_no_line(s: Seq<char>, line: nat)
    requires
        count_newlines(s) < line,
    ensures
        !has_line(s, line),
{
    if has_line(s, line) {
        let p = line_start(s, line);
        lemma_count_mono(s, p, s.len() as int);
        lemma_count_full(s);
    }
}

/// The length of a line from `p` covers the characters before the next line break.
pub proof fn lemma_run_len(s: Seq<char>, p: int, i: int)
    requires
        0 <= p <= i <= s.len(),
        forall|j: int| p <= j < i ==> s[j] != '\n',
    ensures
        run_len(s, p) >= i - p,
        (i == s.len() || s[i] == '\n') ==> run_len(s, p) == i - p,
    decreases i - p,
{
    if p < i {
        lemma_run_len(s, p + 1, i);
    }
}

/// Byte position of column `column` of line `line`; the column is limited to the
/// length of the line, and a line past the last gives the end of the text.
pub fn position_at(content: &str, line: usize, column: usize) -> (pos: usize)
    requires
        fits(content@),
    ensures
        pos == position_of(content@, line as nat, column as nat),
{
    let ghost s = content@;
    proof {
        lemma_fits_len(s);
        lemma_offset_zero(s);
        assert(s.take(0) =~= Seq::<char>::empty());
    }
    let mut current_line: usize = 0;
    let mut index: usize = 0;
    let mut found = false;
    let mut taken: usize = 0;
    let ghost mut p: int = 0;
    for ch in it: content.chars()
        invariant
            it.seq() == s,
            s == content@,
            fits(s),
            s.len() <= usize::MAX,
            index == byte_offset(s, it.index()),
            !found ==> {
                &&& current_line == count_newlines(s.take(it.index()))
                &&& current_line <= line
                &&& (current_line == line ==> is_line_start(s, it.index(), line as nat))
            },
            found ==> {
                &&& is_line_start(s, p, line as nat)
                &&& p + taken == it.index()
                &&& taken <= column
                &&& forall|j: int| p <= j < it.index() ==> s[j] != '\n'
            },
    {
        let ghost i = it.index();
        proof {
            lemma_offset_step(s, i);
            lemma_offset_mono(s, i + 1, s.len() as int);
            lemma_offset_full(s);
            lemma_count_step(s, i);
        }
        if !found && current_line == line {
            found = true;
            taken = 0;
            proof {
                p = i;
            }
        }
        if found {
            if taken == column || ch == '\n' {
                proof {
                    lemma_run_len(s, p, i);
                    lemma_line_start(s, p, line as nat);
                }
                return index;
            }
            taken = taken + 1;
        } else if ch == '\n' {
            current_line = current_line + 1;
        }
        index = index + utf8_width(ch);
    }
    proof {
        let n = s.len() as int;
        lemma_offset_full(s);
        lemma_count_full(s);
        if found {
            lemma_run_len(s, p, n);
            lemma_line_start(s, p, line as nat);
        } else if current_line == line {
            lemma_run_len(s, n, n);
            lemma_line_start(s, n, line as nat);
        } else {
            lemma_no_line(s, line as nat);
        }
    }
    content.len()
}

/// Character index of the cursor, once limited to the end of the text.
pub open spec fn cursor_char(s: Seq<char>, cursor: int) -> int {
    char_index(s, clamp_cursor(s, cursor))
}

/// Byte position of the start of the last character that begins before byte `b`, or 0.
pub open spec fn last_start_before(s: Seq<char>, b: int) -> nat
    decreases s.len(),
{
    if s.len() == 0 {
        0
    } else if byte_offset(s, s.len() - 1) < b {
        byte_offset(s, s.len() - 1)
    } else {
        last_start_before(s.drop_last(), b)
    }
}

/// Text after typing `ch` at the cursor.
pub open spec fn inserted(s: Seq<char>, cursor: int, ch: char) -> Seq<char> {
    s.insert(cursor_char(s, cursor), ch)
}

/// Cursor after typing `ch`: just behind the new character.
pub open spec fn cursor_after_insert(s: Seq<char>, cursor: int, ch: char) -> int {
    clamp_cursor(s, cursor) + char_width(ch)
}

/// Text after deleting the character before the cursor.
pub open spec fn deleted(s: Seq<char>, cursor: int) -> Seq<char> {
    if cursor == 0 {
        s
    } else {
        s.remove(char_index(s, cursor) - 1)
    }
}

/// Cursor after deleting the character before it: where that character started.
pub open spec fn cursor_after_delete(s: Seq<char>, cursor: int) -> int {
    if cursor == 0 {
        0
    } else {
        byte_offset(s, char_index(s, cursor) - 1) as int
    }
}

/// Cursor after moving one character to the left.
pub open spec fn cursor_after_left(s: Seq<char>, cursor: int) -> int {
    if cursor == 0 {
        0
    } else {
        last_start_before(s, cursor) as int
    }
}

/// Cursor after moving one character to the right.
pub open spec fn cursor_after_right(s: Seq<char>, cursor: int) -> int {
    if cursor >= byte_len(s) {
        cursor
    } else {
        byte_offset(s, char_index(s, cursor) + 1) as int
    }
}

/// Cursor after moving one line up, keeping the column where the line allows.
pub open spec fn cursor_after_up(s: Seq<char>, cursor: int) -> int {
    if line_of(s, cursor) == 0 {
        cursor
    } else {
        position_of(s, (line_of(s, cursor) - 1) as nat, column_of(s, cursor)) as int
    }
}

/// Cursor after moving one line down; it stays where it is on the last line.
pub open spec fn cursor_after_down(s: Seq<char>, cursor: int) -> int {
    let next = position_of(s, line_of(s, cursor) + 1, column_of(s, cursor));
    if next != byte_len(s) || line_of(s, cursor) + 1 < total_lines(s) {
        next as int
    } else {
        cursor
    }
}

/// A cursor that the editor keeps: on a character boundary, within the text.
pub open spec fn cursor_valid(s: Seq<char>, cursor: int) -> bool {
    0 <= cursor <= byte_len(s) && is_boundary(s, cursor)
}

/// The start before `b`, one character further.
pub proof fn lemma_last_start_step(s: Seq<char>, i: int, b: int)
    requires
        0 <= i < s.len(),
    ensures
        last_start_before(s.take(i + 1), b) == if byte_offset(s, i) < b {
            byte_offset(s, i)
        } else {
            last_start_before(s.take(i), b)
        },
{
    assert(s.take(i + 1).drop_last() =~= s.take(i));
    lemma_offset_prefix(s, i + 1, i);
}

/// Once a character starts at or after `b`, later characters change nothing.
pub proof fn lemma_last_start_settled(s: Seq<char>, i: int, n: int, b: int)
    requires
        0 <= i <= n <= s.len(),
        byte_offset(s, i) >= b,
    ensures
        last_start_before(s.take(n), b) == last_start_before(s.take(i), b),
    decreases n - i,
{
    if i < n {
        lemma_last_start_settled(s, i, n - 1, b);
        lemma_offset_mono(s, i, n - 1);
        lemma_last_start_step(s, n - 1, b);
    }
}

/// At a boundary, the previous start is that of the previous character.
pub proof fn lemma_last_start_boundary(s: Seq<char>, k: int)
    requires
        1 <= k <= s.len(),
    ensures
        last_start_before(s, byte_offset(s, k) as int) == byte_offset(s, k - 1),
{
    let b = byte_offset(s, k) as int;
    lemma_offset_step(s, k - 1);
    lemma_char_width(s[k - 1]);
    lemma_last_start_step(s, k - 1, b);
    lemma_last_start_settled(s, k, s.len() as int, b);
    assert(s.take(s.len() as int) =~= s);
}

/// A line ends within the text.
pub proof fn lemma_run_len_bound(s: Seq<char>, p: int)
    requires
        0 <= p <= s.len(),
    ensures
        p + run_len(s, p) <= s.len(),
    decreases s.len() - p,
{
    if p < s.len() && s[p] != '\n' {
        lemma_run_len_bound(s, p + 1);
    }
}

/// The previous start is a boundary of the text.
pub proof fn lemma_last_start_valid(s: Seq<char>, b: int)
    ensures
        cursor_valid(s, last_start_before(s, b) as int),
    decreases s.len(),
{
    lemma_offset_zero(s);
    lemma_char_index(s, 0);
    lemma_offset_full(s);
    if s.len() > 0 {
        let n = s.len() - 1;
        if byte_offset(s, n) < b {
            lemma_char_index(s, n);
            lemma_offset_mono(s, n, s.len() as int);
        } else {
            let t = s.drop_last();
            lemma_last_start_valid(t, b);
            let c = last_start_before(t, b) as int;
            let j = char_index(t, c);
            assert(t =~= s.take(n));
            lemma_offset_prefix(s, n, j);
            lemma_char_index(s, j);
            lemma_offset_mono(s, j, s.len() as int);
        }
    }
}

/// `position_of` always lands on a character boundary within the text.
pub proof fn lemma_position_valid(s: Seq<char>, line: nat, column: nat)
    ensures
        cursor_valid(s, position_of(s, line, column) as int),
{
    if has_line(s, line) {
        let p = line_start(s, line);
        lemma_run_len_bound(s, p);
        let q = p + if column < run_len(s, p) {
            column as int
        } else {
            run_len(s, p) as int
        };
        lemma_char_index(s, q);
        lemma_offset_mono(s, q, s.len() as int);
        lemma_offset_full(s);
    } else {
        lemma_offset_full(s);
        lemma_char_index(s, s.len() as int);
    }
}

/// Start of the last character that begins before byte `cursor`, or 0.
fn start_before(content: &str, cursor: usize) -> (prev: usize)
    requires
        fits(content@),
    ensures
        prev == last_start_before(content@, cursor as int),
{
    let ghost s = content@;
    proof {
        lemma_fits_len(s);
        lemma_offset_zero(s);
        assert(s.take(0) =~= Seq::<char>::empty());
    }
    let mut byte: usize = 0;
    let mut prev: usize = 0;
    for ch in it: content.chars()
        invariant
            it.seq() == s,
            s == content@,
            fits(s),
            byte == byte_offset(s, it.index()),
            prev == last_start_before(s.take(it.index()), cursor as int),
    {
        let ghost i = it.index();
        if byte >= cursor {
            proof {
                lemma_last_start_settled(s, i, s.len() as int, cursor as int);
                assert(s.take(s.len() as int) =~= s);
            }
            return prev;
        }
        proof {
            lemma_last_start_step(s, i, cursor as int);
            lemma_offset_step(s, i);
            lemma_offset_mono(s, i + 1, s.len() as int);
            lemma_offset_full(s);
        }
        prev = byte;
        byte = byte + utf8_width(ch);
    }
    proof {
        assert(s.take(s.len() as int) =~= s);
    }
    prev
}

/// Start of the character after the one at byte `cursor`, which starts a character.
fn start_after(content: &str, cursor: usize) -> (next: usize)
    requires
        fits(content@),
        cursor < byte_len(content@),
        is_boundary(content@, cursor as int),
    ensures
        next == byte_offset(content@, char_index(content@, cursor as int) + 1),
        char_index(content@, cursor as int) < content@.len(),
{
    let ghost s = content@;
    let ghost k = char_index(s, cursor as int);
    proof {
        lemma_fits_len(s);
        lemma_offset_zero(s);
        lemma_offset_full(s);
        if k == s.len() {
            assert(false);
        }
    }
    let mut byte: usize = 0;
    for ch in it: content.chars()
        invariant
            it.seq() == s,
            s == content@,
            fits(s),
            k == char_index(s, cursor as int),
            0 <= k < s.len(),
            byte_offset(s, k) == cursor,
            byte == byte_offset(s, it.index()),
            byte <= cursor,
    {
        let ghost i = it.index();
        proof {
            lemma_offset_step(s, i);
            lemma_offset_mono(s, i + 1, s.len() as int);
            lemma_offset_full(s);
        }
        if byte == cursor {
            proof {
                lemma_boundary_unique(s, i, k);
            }
            return byte + utf8_width(ch);
        }
        proof {
            if k <= i {
                lemma_offset_mono(s, k, i);
            }
            lemma_offset_mono(s, i + 1, k);
        }
        byte = byte + utf8_width(ch);
    }
    proof {
        lemma_offset_full(s);
        lemma_offset_mono(s, k + 1, s.len() as int);
        lemma_offset_step(s, k);
        lemma_char_width(s[k]);
    }
    byte
}

/// Types `ch` at the cursor and moves the cursor behind it.
pub fn insert_char(content: &mut String, cursor: &mut usize, ch: char)
    requires
        fits(old(content)@),
        byte_len(old(content)@) + char_width(ch) <= isize::MAX,
        cursor_ok(old(content)@, *old(cursor) as int),
    ensures
        final(content)@ == inserted(old(content)@, *old(cursor) as int, ch),
        *final(cursor) == cursor_after_insert(old(content)@, *old(cursor) as int, ch),
        cursor_valid(final(content)@, *final(cursor) as int),
        byte_len(final(content)@) == byte_len(old(content)@) + char_width(ch),
{
    let ghost s = content@;
    let len = content.as_str().len();
    let index = if *cursor < len { *cursor } else { len };
    let ghost k = char_index(s, index as int);
    proof {
        lemma_boundary_index(s, index as int);
    }
    string_insert(content, index, ch);
    proof {
        let t = content@;
        assert(t == s.insert(k, ch));
        assert(t.take(k) =~= s.take(k));
        assert(t[k] == ch);
        lemma_offset_step(t, k);
        lemma_char_index(t, k + 1);
        lemma_offset_mono(t, k + 1, t.len() as int);
        lemma_offset_full(t);
        lemma_char_width(ch);
        lemma_byte_len_insert(s, k, ch);
    }
    *cursor = index + utf8_width(ch);
}

/// Deletes the character before the cursor and moves the cursor to where it started.
pub fn delete_before_cursor(content: &mut String, cursor: &mut usize)
    requires
        fits(old(content)@),
        cursor_valid(old(content)@, *old(cursor) as int),
    ensures
        final(content)@ == deleted(old(content)@, *old(cursor) as int),
        *final(cursor) == cursor_after_delete(old(content)@, *old(cursor) as int),
        cursor_valid(final(content)@, *final(cursor) as int),
        byte_len(final(content)@) <= byte_len(old(content)@),
{
    let ghost s = content@;
    if *cursor == 0 {
        proof {
            lemma_offset_zero(s);
            lemma_char_index(s, 0);
        }
        return;
    }
    let ghost k = char_index(s, *cursor as int);
    proof {
        lemma_boundary_index(s, *cursor as int);
        lemma_offset_zero(s);
        if k == 0 {
            assert(false);
        }
        lemma_last_start_boundary(s, k);
        lemma_char_index(s, k - 1);
        lemma_offset_mono(s, k - 1, k);
        reveal_strlit("");
    }
    let prev = start_before(content.as_str(), *cursor);
    string_replace_range(content, prev, *cursor, "");
    proof {
        let t = content@;
        assert(""@ =~= Seq::<char>::empty());
        assert(t == s.take(k - 1) + ""@ + s.skip(k));
        assert(t =~= s.remove(k - 1));
        lemma_byte_len_remove(s, k - 1);
        assert(t.take(k - 1) =~= s.take(k - 1));
        lemma_char_index(t, k - 1);
        lemma_offset_mono(t, k - 1, t.len() as int);
        lemma_offset_full(t);
    }
    *cursor = prev;
}

/// Moves the cursor to the start of the previous character.
pub fn move_cursor_left(content: &str, cursor: &mut usize)
    requires
        fits(content@),
    ensures
        *final(cursor) == cursor_after_left(content@, *old(cursor) as int),
        cursor_valid(content@, *final(cursor) as int),
{
    proof {
        lemma_last_start_valid(content@, *cursor as int);
        lemma_offset_zero(content@);
        lemma_char_index(content@, 0);
    }
    if *cursor == 0 {
        return;
    }
    *cursor = start_before(content, *cursor);
}

/// Moves the cursor to the start of the next character; at the end it stays.
pub fn move_cursor_right(content: &str, cursor: &mut usize)
    requires
        fits(content@),
        *old(cursor) < byte_len(content@) ==> is_boundary(content@, *old(cursor) as int),
    ensures
        *final(cursor) == cursor_after_right(content@, *old(cursor) as int),
        cursor_valid(content@, *old(cursor) as int) ==> cursor_valid(content@, *final(cursor) as int),
{
    if *cursor >= content.len() {
        return;
    }
    let ghost k = char_index(content@, *cursor as int);
    *cursor = start_after(content, *cursor);
    proof {
        lemma_char_index(content@, k + 1);
        lemma_offset_mono(content@, k + 1, content@.len() as int);
        lemma_offset_full(content@);
    }
}

/// Moves the cursor one line up, to the same column where that line is long enough.
pub fn move_cursor_up(content: &str, cursor: &mut usize)
    requires
        fits(content@),
        cursor_ok(content@, *old(cursor) as int),
    ensures
        *final(cursor) == cursor_after_up(content@, *old(cursor) as int),
        cursor_valid(content@, *old(cursor) as int) ==> cursor_valid(content@, *final(cursor) as int),
{
    let line = cursor_line(content, *cursor);
    if line == 0 {
        return;
    }
    let column = cursor_column(content, *cursor);
    *cursor = position_at(content, line - 1, column);
    proof {
        lemma_position_valid(content@, (line - 1) as nat, column as nat);
    }
}

/// Moves the cursor one line down, to the same column where that line is long enough.
pub fn move_cursor_down(content: &str, cursor: &mut usize)
    requires
        fits(content@),
        cursor_ok(content@, *old(cursor) as int),
    ensures
        *final(cursor) == cursor_after_down(content@, *old(cursor) as int),
        cursor_valid(content@, *old(cursor) as int) ==> cursor_valid(content@, *final(cursor) as int),
{
    let ghost s = content@;
    let line = cursor_line(content, *cursor);
    let column = cursor_column(content, *cursor);
    proof {
        lemma_boundary_index(s, clamp_cursor(s, *cursor as int));
        lemma_counts_bounded(s.take(char_index(s, clamp_cursor(s, *cursor as int))));
        lemma_fits_len(s);
    }
    let next = position_at(content, line + 1, column);
    proof {
        lemma_position_valid(s, (line + 1) as nat, column as nat);
    }
    if next != content.len() || line + 1 < line_count(content) {
        *cursor = next;
    }
}

/// Typing a character and deleting it again gives back the text, with the cursor
/// where it was (limited to the end of the text).
pub proof fn lemma_insert_then_delete(s: Seq<char>, cursor: int, ch: char)
    requires
        cursor_ok(s, cursor),
    ensures
        deleted(inserted(s, cursor, ch), cursor_after_insert(s, cursor, ch)) == s,
        cursor_after_delete(inserted(s, cursor, ch), cursor_after_insert(s, cursor, ch))
            == clamp_cursor(s, cursor),
{
    let k = cursor_char(s, cursor);
    lemma_boundary_index(s, clamp_cursor(s, cursor));
    let t = inserted(s, cursor, ch);
    assert(t.take(k) =~= s.take(k));
    assert(t[k] == ch);
    lemma_offset_step(t, k);
    lemma_char_width(ch);
    lemma_char_index(t, k + 1);
    assert(t.remove(k) =~= s);
}

/// The line and column of a cursor lead back to the cursor.
pub proof fn lemma_position_of_cursor(s: Seq<char>, cursor: int)
    requires
        cursor_ok(s, cursor),
    ensures
        position_of(s, line_of(s, cursor), column_of(s, cursor)) == clamp_cursor(s, cursor),
{
    let k = cursor_char(s, cursor);
    lemma_boundary_index(s, clamp_cursor(s, cursor));
    let c = column_of(s, cursor);
    let line = line_of(s, cursor);
    lemma_trailing_column(s, k);
    let p = k - c;
    lemma_line_start(s, p, line);
    lemma_run_len(s, p, k);
}

/// The characters after the last line break before index `k` hold no line break,
/// and the line count does not change over them.
proof fn lemma_trailing_column(s: Seq<char>, k: int)
    requires
        0 <= k <= s.len(),
    ensures
        trailing_column(s.take(k)) <= k,
        is_line_start(s, k - trailing_column(s.take(k)), count_newlines(s.take(k))),
        forall|j: int| k - trailing_column(s.take(k)) <= j < k ==> s[j] != '\n',
    decreases k,
{
    if k == 0 {
        assert(s.take(0) =~= Seq::<char>::empty());
    } else {
        lemma_count_step(s, k - 1);
        if s[k - 1] != '\n' {
            lemma_trailing_column(s, k - 1);
        }
    }
}

/// Moving right and then left comes back to the same place.
pub proof fn lemma_right_then_left(s: Seq<char>, cursor: int)
    requires
        cursor_valid(s, cursor),
        cursor < byte_len(s),
    ensures
        cursor_after_left(s, cursor_after_right(s, cursor)) == cursor,
{
    let k = char_index(s, cursor);
    lemma_boundary_index(s, cursor);
    lemma_offset_full(s);
    lemma_offset_step(s, k);
    lemma_char_width(s[k]);
    lemma_last_start_boundary(s, k + 1);
}

/// Moving left and then right comes back to the same place.
pub proof fn lemma_left_then_right(s: Seq<char>, cursor: int)
    requires
        cursor_valid(s, cursor),
        cursor > 0,
    ensures
        cursor_after_right(s, cursor_after_left(s, cursor)) == cursor,
{
    let k = char_index(s, cursor);
    lemma_boundary_index(s, cursor);
    lemma_offset_zero(s);
    lemma_last_start_boundary(s, k);
    lemma_char_index(s, k - 1);
    lemma_offset_mono(s, k, s.len() as int);
    lemma_offset_full(s);
    lemma_offset_step(s, k - 1);
    lemma_char_width(s[k - 1]);
}

/// The cursor stands at the end of its line: at the end of the text or just before
/// a line break.
pub open spec fn ends_line(s: Seq<char>, cursor: int) -> bool {
    let k = cursor_char(s, cursor);
    k == s.len() || s[k] == '\n'
}

/// Every line break opens a line: line `n` exists when the text holds at least `n`
/// line breaks.
pub proof fn lemma_has_line(s: Seq<char>, n: nat)
    requires
        n <= count_newlines(s),
    ensures
        has_line(s, n),
    decreases s.len(),
{
    if s.len() == 0 {
        assert(s.take(0) =~= Seq::<char>::empty());
        assert(is_line_start(s, 0, 0));
    } else {
        let t = s.drop_last();
        if n <= count_newlines(t) {
            lemma_has_line(t, n);
            let p = line_start(t, n);
            assert(is_line_start(t, p, n));
            assert(s.take(p) =~= t.take(p));
            assert(is_line_start(s, p, n));
        } else {
            lemma_count_full(s);
            assert(is_line_start(s, s.len() as int, n));
        }
    }
}

/// No line break stands within the first `run_len` characters from `p`.
proof fn lemma_run_len_clear(s: Seq<char>, p: int, j: int)
    requires
        0 <= p <= j < p + run_len(s, p),
    ensures
        s[j] != '\n',
    decreases j - p,
{
    if p < j {
        lemma_run_len_clear(s, p + 1, j);
    }
}

/// The run from `p` stops at the end of the text or at a line break.
proof fn lemma_run_len_end(s: Seq<char>, p: int)
    requires
        0 <= p <= s.len(),
    ensures
        p + run_len(s, p) == s.len() || s[p + run_len(s, p)] == '\n',
    decreases s.len() - p,
{
    if p < s.len() && s[p] != '\n' {
        lemma_run_len_end(s, p + 1);
    }
}

/// Over a stretch without line breaks the line count stays and the column grows by
/// the length of the stretch.
proof fn lemma_counts_over_run(s: Seq<char>, p: int, q: int)
    requires
        0 <= p <= q <= s.len(),
        forall|j: int| p <= j < q ==> s[j] != '\n',
    ensures
        count_newlines(s.take(q)) == count_newlines(s.take(p)),
        trailing_column(s.take(q)) == trailing_column(s.take(p)) + (q - p),
    decreases q - p,
{
    if p < q {
        lemma_counts_over_run(s, p, q - 1);
        lemma_count_step(s, q - 1);
    }
}

/// Column `column` of an existing line `line` lies on that line, at that column
/// where the line is long enough and at the line's end otherwise.
pub proof fn lemma_position_on_line(s: Seq<char>, line: nat, column: nat)
    requires
        has_line(s, line),
    ensures
        line_of(s, position_of(s, line, column) as int) == line,
        column_of(s, position_of(s, line, column) as int) <= column,
        column_of(s, position_of(s, line, column) as int) == column || ends_line(
            s,
            position_of(s, line, column) as int,
        ),
{
    let p = line_start(s, line);
    assert(is_line_start(s, p, line));
    lemma_run_len_bound(s, p);
    lemma_run_len_end(s, p);
    let m = if column < run_len(s, p) {
        column as int
    } else {
        run_len(s, p) as int
    };
    let q = p + m;
    let pos = byte_offset(s, q) as int;
    assert(position_of(s, line, column) == pos);
    lemma_char_index(s, q);
    lemma_offset_mono(s, q, s.len() as int);
    lemma_offset_full(s);
    assert(clamp_cursor(s, pos) == pos);
    assert forall|j: int| p <= j < q implies s[j] != '\n' by {
        lemma_run_len_clear(s, p, j);
    }
    lemma_counts_over_run(s, p, q);
    if p == 0 {
        assert(s.take(0) =~= Seq::<char>::empty());
    } else {
        lemma_count_step(s, p - 1);
    }
}

/// Line breaks before a cursor are among the line breaks of the text.
proof fn lemma_line_of_bound(s: Seq<char>, cursor: int)
    requires
        cursor_ok(s, cursor),
    ensures
        line_of(s, cursor) <= count_newlines(s),
{
    lemma_boundary_index(s, clamp_cursor(s, cursor));
    lemma_count_mono(s, cursor_char(s, cursor), s.len() as int);
    lemma_count_full(s);
}

/// Down from any line but the last reaches the next line, keeping the column where
/// that line is long enough and stopping at its end otherwise.
pub proof fn lemma_down_moves_one_line(s: Seq<char>, cursor: int)
    requires
        cursor_ok(s, cursor),
        line_of(s, cursor) + 1 < total_lines(s),
    ensures
        line_of(s, cursor_after_down(s, cursor)) == line_of(s, cursor) + 1,
        column_of(s, cursor_after_down(s, cursor)) <= column_of(s, cursor),
        column_of(s, cursor_after_down(s, cursor)) == column_of(s, cursor) || ends_line(
            s,
            cursor_after_down(s, cursor),
        ),
{
    let line = line_of(s, cursor) + 1;
    assert(line <= count_newlines(s));
    lemma_has_line(s, line);
    lemma_position_on_line(s, line, column_of(s, cursor));
}

/// On the last line Down leaves the cursor where it is.
pub proof fn lemma_down_on_last_line(s: Seq<char>, cursor: int)
    requires
        cursor_ok(s, cursor),
        line_of(s, cursor) + 1 >= total_lines(s),
    ensures
        cursor_after_down(s, cursor) == cursor,
{
    let line = line_of(s, cursor) + 1;
    let next = position_of(s, line, column_of(s, cursor));
    lemma_offset_full(s);
    if has_line(s, line) {
        let p = line_start(s, line);
        assert(is_line_start(s, p, line));
        lemma_count_mono(s, p, s.len() as int);
        lemma_count_full(s);
        lemma_line_of_bound(s, cursor);
        if p < s.len() {
            lemma_count_mono(s, p, s.len() - 1);
            lemma_count_step(s, s.len() - 1);
            assert(s.take(s.len() as int) =~= s);
        }
        assert(p == s.len());
        assert(run_len(s, p) == 0);
    }
    assert(next == byte_len(s));
}

/// Up from any line but the first reaches the line above, keeping the column where
/// that line is long enough and stopping at its end otherwise.
pub proof fn lemma_up_moves_one_line(s: Seq<char>, cursor: int)
    requires
        cursor_ok(s, cursor),
        line_of(s, cursor) > 0,
    ensures
        line_of(s, cursor_after_up(s, cursor)) == line_of(s, cursor) - 1,
        column_of(s, cursor_after_up(s, cursor)) <= column_of(s, cursor),
        column_of(s, cursor_after_up(s, cursor)) == column_of(s, cursor) || ends_line(
            s,
            cursor_after_up(s, cursor),
        ),
{
    let line = (line_of(s, cursor) - 1) as nat;
    lemma_line_of_bound(s, cursor);
    lemma_has_line(s, line);
    lemma_position_on_line(s, line, column_of(s, cursor));
}

/// Right moves the cursor over exactly the character after it (staying put at the
/// end of the text), and Left over exactly the character before it (staying put at
/// the start).
pub proof fn lemma_horizontal_moves_one_char(s: Seq<char>, cursor: int)
    requires
        cursor_valid(s, cursor),
    ensures
        cursor < byte_len(s) ==> {
            let k = char_index(s, cursor);
            &&& char_index(s, cursor_after_right(s, cursor)) == k + 1
            &&& cursor_after_right(s, cursor) == cursor + char_width(s[k])
        },
        cursor == byte_len(s) ==> cursor_after_right(s, cursor) == cursor,
        cursor > 0 ==> {
            let k = char_index(s, cursor);
            &&& char_index(s, cursor_after_left(s, cursor)) == k - 1
            &&& cursor_after_left(s, cursor) + char_width(s[k - 1]) == cursor
        },
        cursor == 0 ==> cursor_after_left(s, cursor) == 0,
{
    let k = char_index(s, cursor);
    lemma_boundary_index(s, cursor);
    lemma_offset_full(s);
    lemma_offset_zero(s);
    if cursor < byte_len(s) {
        if k == s.len() {
            assert(false);
        }
        lemma_offset_step(s, k);
        lemma_char_index(s, k + 1);
    }
    if cursor > 0 {
        if k == 0 {
            assert(false);
        }
        lemma_last_start_boundary(s, k);
        lemma_char_index(s, k - 1);
        lemma_offset_step(s, k - 1);
    }
}

/// Backspace takes out exactly the character before the cursor, which moves to where
/// that character began; at the start of the text it changes nothing.
pub proof fn lemma_backspace_removes_previous_char(s: Seq<char>, cursor: int)
    requires
        cursor_valid(s, cursor),
    ensures
        cursor == 0 ==> deleted(s, cursor) == s && cursor_after_delete(s, cursor) == 0,
        cursor > 0 ==> {
            let k = char_index(s, cursor);
            &&& deleted(s, cursor) == s.take(k - 1) + s.skip(k)
            &&& cursor_after_delete(s, cursor) + char_width(s[k - 1]) == cursor
            &&& is_boundary(deleted(s, cursor), cursor_after_delete(s, cursor))
        },
{
    if cursor > 0 {
        let k = char_index(s, cursor);
        lemma_boundary_index(s, cursor);
        lemma_offset_zero(s);
        if k == 0 {
            assert(false);
        }
        lemma_offset_step(s, k - 1);
        assert(s.remove(k - 1) =~= s.take(k - 1) + s.skip(k));
        let d = s.remove(k - 1);
        assert(d.take(k - 1) =~= s.take(k - 1));
        lemma_char_index(d, k - 1);
        lemma_offset_prefix(s, k - 1, k - 1);
        lemma_offset_prefix(d, k - 1, k - 1);
    }
}

} // verus!
