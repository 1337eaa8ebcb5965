use vstd::prelude::*;

use crate::text::{byte_len, byte_offset, char_width, is_boundary};

verus! {

/// `String::insert` puts `ch` at byte position `idx`, which must start a character
/// or be the end of the string; the string grows by the width of `ch`.
#[verifier::external_body]
pub(crate) fn string_insert(s: &mut String, idx: usize, ch: char)
    requires
        is_boundary(old(s)@, idx as int),
        byte_len(old(s)@) + char_width(ch) <= isize::MAX,
    ensures
        forall|k: int|
            0 <= k <= old(s)@.len() && byte_offset(old(s)@, k) == idx ==> final(s)@ == old(
                s,
            )@.insert(k, ch),
{
    s.insert(idx, ch)
}

/// `String::replace_range` replaces the bytes from `start` to `end`, both of which
/// must be character boundaries, by `with`.
#[verifier::external_body]
pub(crate) fn string_replace_range(s: &mut String, start: usize, end: usize, with: &str)
    requires
        start <= end,
        is_boundary(old(s)@, start as int),
        is_boundary(old(s)@, end as int),
        byte_len(old(s)@) + byte_len(with@) <= isize::MAX,
    ensures
        forall|i: int, j: int|
            0 <= i <= j <= old(s)@.len() && byte_offset(old(s)@, i) == start && byte_offset(
                old(s)@,
                j,
            ) == end ==> final(s)@ == old(s)@.take(i) + with@ + old(s)@.skip(j),
{
    s.replace_range(start..end, with)
}

/// `String::push` appends `ch`.
#[verifier::external_body]
pub(crate) fn string_push(s: &mut String, ch: char)
    requires
        byte_len(old(s)@) + char_width(ch) <= isize::MAX,
    ensures
        final(s)@ == old(s)@.push(ch),
{
    s.push(ch)
}

/// `String::pop` removes and returns the last character, if there is one.
#[verifier::external_body]
pub(crate) fn string_pop(s: &mut String) -> (last: Option<char>)
    ensures
        old(s)@.len() == 0 ==> last is None && final(s)@ == old(s)@,
        old(s)@.len() > 0 ==> last == Some(old(s)@.last()) && final(s)@ == old(s)@.drop_last(),
{
    s.pop()
}

/// The Unicode `White_Space` property, which `char::is_whitespace` and `str::trim` use.
pub open spec fn is_white_space(c: char) -> bool {
    let v = c as u32;
    ||| 0x09 <= v <= 0x0D
    ||| v == 0x20
    ||| v == 0x85
    ||| v == 0xA0
    ||| v == 0x1680
    ||| 0x2000 <= v <= 0x200A
    ||| v == 0x2028
    ||| v == 0x2029
    ||| v == 0x202F
    ||| v == 0x205F
    ||| v == 0x3000
}

/// `s` without its leading white space.
pub open spec fn trim_start_spec(s: Seq<char>) -> Seq<char>
    decreases s.len(),
{
    if s.len() > 0 && is_white_space(s[0]) {
        trim_start_spec(s.drop_first())
    } else {
        s
    }
}

/// `s` without its trailing white space.
pub open spec fn trim_end_spec(s: Seq<char>) -> Seq<char>
    decreases s.len(),
{
    if s.len() > 0 && is_white_space(s.last()) {
        trim_end_spec(s.drop_last())
    } else {
        s
    }
}

/// `s` without leading and trailing white space.
pub open spec fn trimmed(s: Seq<char>) -> Seq<char> {
    trim_end_spec(trim_start_spec(s))
}

/// `str::trim` removes the leading and trailing white space.
#[verifier::external_body]
pub(crate) fn trim_str(s: &str) -> (t: &str)
    ensures
        t@ == trimmed(s@),
{
    s.trim()
}

/// `i` begins a segment of `s`: it is 0 or follows a `/`.
pub open spec fn starts_segment(s: Seq<char>, i: int) -> bool {
    i == 0 || s[i - 1] == '/'
}

/// `j` ends a segment of `s`: it is the end of `s` or holds a `/`.
pub open spec fn ends_segment(s: Seq<char>, j: int) -> bool {
    j == s.len() || s[j] == '/'
}

/// A relative path whose text is its components joined by single `/`: no empty
/// segment (so no leading, trailing or doubled `/`), no segment `.` or `..`, and no
/// backslash or colon (so nothing that any platform reads as a separator or a prefix).
pub open spec fn simple_relative(s: Seq<char>) -> bool {
    &&& s.len() > 0
    &&& !s.contains('\\')
    &&& !s.contains(':')
    &&& forall|i: int| 0 <= i <= s.len() && #[trigger] starts_segment(s, i) ==> !ends_segment(s, i)
    &&& forall|i: int|
        0 <= i < s.len() && #[trigger] starts_segment(s, i) && s[i] == '.' ==> !ends_segment(
            s,
            i + 1,
        )
    &&& forall|i: int|
        0 <= i < s.len() - 1 && #[trigger] starts_segment(s, i) && s[i] == '.' && s[i + 1] == '.'
            ==> !ends_segment(s, i + 2)
}

/// A path that every platform splits into the same components, one per segment of
/// its text: a simple relative path, or one behind a single leading `/`.
pub open spec fn simple_path(s: Seq<char>) -> bool {
    ||| simple_relative(s)
    ||| s.len() >= 2 && s[0] == '/' && simple_relative(s.drop_first())
}

/// What is left of `path` after the whole components of `base`, for simple paths:
/// nothing where they are equal, what follows `base` and a `/` where `base` stands
/// before a `/` of `path`, and `None` where `base` is no such prefix.
pub open spec fn component_rest(path: Seq<char>, base: Seq<char>) -> Option<Seq<char>> {
    if path == base {
        Some(Seq::empty())
    } else if base.len() < path.len() && path.take(base.len() as int) == base && path[base.len() as int] == '/' {
        Some(path.skip(base.len() as int + 1))
    } else {
        None
    }
}

/// `Path::strip_prefix`, read back as text: the path without the leading components
/// that make up `base`, or `None` where `base` is not a prefix of it. What comes
/// back is a stretch of `path`. Components are compared as the platform splits them;
/// for simple paths (one component per segment on every platform) that is the
/// textual match that `component_rest` states.
#[verifier::external_body]
pub(crate) fn path_strip_prefix(path: &str, base: &str) -> (rest: Option<String>)
    ensures
        rest matches Some(r) ==> exists|i: int, j: int|
            0 <= i <= j <= path@.len() && r@ == path@.subrange(i, j),
        simple_path(path@) && simple_path(base@) ==> match rest {
            Some(r) => component_rest(path@, base@) == Some(r@),
            None => component_rest(path@, base@) is None,
        },
{
    std::path::Path::new(path).strip_prefix(base).ok().map(|p| p.to_string_lossy().into_owned())
}

/// Index just past the last `/` of `s`, or 0 where there is none: where the last
/// segment of a path begins.
pub open spec fn last_segment_start(s: Seq<char>) -> int
    decreases s.len(),
{
    if s.len() == 0 {
        0
    } else if s.last() == '/' {
        s.len() as int
    } else {
        last_segment_start(s.drop_last())
    }
}

/// Index of the last `.` of `s`, or -1 where there is none.
pub open spec fn last_dot(s: Seq<char>) -> int
    decreases s.len(),
{
    if s.len() == 0 {
        -1
    } else if s.last() == '.' {
        s.len() - 1
    } else {
        last_dot(s.drop_last())
    }
}

/// The last segment of a path: what follows its last `/`.
pub open spec fn last_segment(s: Seq<char>) -> Seq<char> {
    s.skip(last_segment_start(s))
}

/// A path that every platform splits alike: no backslash, colon or leading `//`
/// (so no Windows prefix), and a last segment that is a file name (not empty, `.`
/// or `..`).
pub open spec fn plain_path(s: Seq<char>) -> bool {
    &&& !s.contains('\\')
    &&& !s.contains(':')
    &&& !(s.len() >= 2 && s[0] == '/' && s[1] == '/')
    &&& last_segment(s).len() > 0
    &&& last_segment(s) != "."@
    &&& last_segment(s) != ".."@
}

/// The extension of a plain path, as `Path::extension` documents it: none where the
/// file name holds no dot or only a leading one, else what follows the last dot.
pub open spec fn plain_extension(s: Seq<char>) -> Option<Seq<char>> {
    let f = last_segment(s);
    let d = last_dot(f);
    if d <= 0 {
        None
    } else {
        Some(f.skip(d + 1))
    }
}

/// `Path::extension`, read back as text: what follows the last dot of the file name.
/// Where the file name ends is the platform's matter; on every platform the extension
/// is a stretch of the path that holds no dot, and for a plain path it is the one
/// the documentation gives.
#[verifier::external_body]
pub(crate) fn path_extension(path: &str) -> (ext: Option<String>)
    ensures
        ext matches Some(e) ==> (exists|i: int, j: int|
            0 <= i <= j <= path@.len() && e@ == path@.subrange(i, j)) && !e@.contains('.'),
        plain_path(path@) ==> match ext {
            Some(e) => plain_extension(path@) == Some(e@),
            None => plain_extension(path@) is None,
        },
{
    std::path::Path::new(path).extension().map(|e| e.to_string_lossy().into_owned())
}

/// Whether two paths are equal as `Path` compares them: component by component.
pub uninterp spec fn same_path(a: Seq<char>, b: Seq<char>) -> bool;

/// `Path == Path`: the two paths have equal components. The same text has the same
/// components; a simple path has one component per segment, so two simple paths are
/// equal exactly when their texts are.
#[verifier::external_body]
pub(crate) fn paths_equal(a: &str, b: &str) -> (same: bool)
    ensures
        same == same_path(a@, b@),
        a@ == b@ ==> same,
        simple_path(a@) && simple_path(b@) ==> (same <==> a@ == b@),
{
    std::path::Path::new(a) == std::path::Path::new(b)
}

/// The file stem of a plain path, as `Path::file_stem` documents it: the whole file
/// name where it holds no dot or only a leading one, else what precedes its last dot.
pub open spec fn plain_stem(s: Seq<char>) -> Seq<char> {
    let f = last_segment(s);
    let d = last_dot(f);
    if d <= 0 {
        f
    } else {
        f.take(d)
    }
}

/// `Path::file_stem`, read back as text: the file name without its extension. Where
/// the file name ends is the platform's matter; on every platform the stem is a
/// stretch of the path, and for a plain path it is the one the documentation gives.
#[verifier::external_body]
pub(crate) fn path_file_stem(path: &str) -> (stem: Option<String>)
    ensures
        stem matches Some(t) ==> exists|i: int, j: int|
            0 <= i <= j <= path@.len() && t@ == path@.subrange(i, j),
        plain_path(path@) ==> match stem {
            Some(t) => t@ == plain_stem(path@),
            None => false,
        },
{
    std::path::Path::new(path).file_stem().map(|s| s.to_string_lossy().into_owned())
}

/// `s` ends with `suffix`.
pub open spec fn ends_with(s: Seq<char>, suffix: Seq<char>) -> bool {
    suffix.len() <= s.len() && s.subrange(s.len() - suffix.len(), s.len() as int) == suffix
}

/// What joining a relative file name (no separator, colon or drive, not `.` or `..`)
/// onto `dir` gives, as far as every platform agrees: the path ends with the file
/// name; after an empty directory it is the file name alone; after a directory that
/// ends in `/` the file name follows directly; after one that ends in neither `/` nor
/// `\` and holds no colon (no drive) the platform's separator stands between them.
/// Only a Windows verbatim directory (`\\?\...`), which the join normalizes, may come
/// out otherwise.
pub open spec fn join_shape(dir: Seq<char>, file: Seq<char>, joined: Seq<char>) -> bool {
    &&& ends_with(joined, file)
    &&& dir.len() == 0 ==> joined == file
    &&& !dir.contains('?') ==> (joined == dir + file || joined == dir + seq!['/'] + file
        || joined == dir + seq!['\\'] + file)
    &&& dir.len() > 0 && dir.last() == '/' && !dir.contains('?') ==> joined == dir + file
    &&& dir.len() > 0 && dir.last() != '/' && dir.last() != '\\' && !dir.contains(':')
        && !dir.contains('?') ==> (joined == dir + seq!['/'] + file || joined == dir + seq!['\\']
        + file)
}

/// `Path::join` (through `PathBuf::push`) with a relative file name: a separator is
/// added exactly where the directory is not empty and does not already end in one
/// (on Windows, also not after a bare drive such as `C:`), then the file name; the
/// shape every platform shares is `join_shape`.
#[verifier::external_body]
pub(crate) fn path_join(dir: &str, file: &str) -> (joined: String)
    requires
        file@.len() > 0,
        !file@.contains('/'),
        !file@.contains('\\'),
        !file@.contains(':'),
        file@ != "."@,
        file@ != ".."@,
    ensures
        join_shape(dir@, file@, joined@),
{
    std::path::Path::new(dir).join(file).to_string_lossy().into_owned()
}

/// Decimal value of a string of digits.
pub open spec fn digits_value(s: Seq<char>) -> int
    decreases s.len(),
{
    if s.len() == 0 {
        0
    } else {
        digits_value(s.drop_last()) * 10 + (s.last() as int - '0' as int)
    }
}

/// Every character is an ASCII digit.
pub open spec fn all_digits(s: Seq<char>) -> bool {
    forall|i: int| 0 <= i < s.len() ==> '0' <= #[trigger] s[i] <= '9'
}

/// What `u16::from_str` gives: an optional `+` and at least one digit, of value at
/// most `u16::MAX`; anything else is refused.
pub open spec fn parsed_u16(s: Seq<char>) -> Option<u16> {
    let d = if s.len() > 0 && s[0] == '+' {
        s.drop_first()
    } else {
        s
    };
    if d.len() > 0 && all_digits(d) && digits_value(d) <= u16::MAX {
        Some(digits_value(d) as u16)
    } else {
        None
    }
}

/// `str::parse::<u16>`.
#[verifier::external_body]
pub(crate) fn parse_u16(s: &str) -> (n: Option<u16>)
    ensures
        n == parsed_u16(s@),
{
    s.parse::<u16>().ok()
}

} // verus!
