use vstd::prelude::*;

use crate::strings::{
    ends_with, join_shape,
    parse_u16, parsed_u16, path_extension, path_file_stem, plain_extension, plain_path, plain_stem, path_join, simple_path, component_rest, paths_equal, same_path, path_strip_prefix, string_push, trim_str,
    trimmed,
};
use vstd::string::*;
use crate::text::{
    byte_len, fits, lemma_byte_len_drop_first, lemma_byte_len_drop_last,
    lemma_byte_len_push, lemma_char_width, lemma_encode_concat, lemma_encode_single,
};

verus! {

/// A note file: its name (the file stem), its path and its text.
#[derive(Clone, Debug)]
pub struct Note {
    pub name: String,
    pub path: String,
    pub content: String,
}

/// One line of the note browser.
#[derive(Clone, Debug)]
pub enum BrowserEntry {
    Parent,
    Directory { name: String, path: String },
    Note(Note),
}

/// The name under which an entry is listed and sorted.
pub open spec fn entry_name_spec(entry: BrowserEntry) -> Seq<char> {
    match entry {
        BrowserEntry::Parent => ".."@,
        BrowserEntry::Directory { name, .. } => name@,
        BrowserEntry::Note(note) => note.name@,
    }
}

/// The name under which an entry is listed and sorted.
pub fn entry_name(entry: &BrowserEntry) -> (name: &str)
    ensures
        name@ == entry_name_spec(*entry),
{
    match entry {
        BrowserEntry::Parent => "..",
        BrowserEntry::Directory { name, .. } => name.as_str(),
        BrowserEntry::Note(note) => note.name.as_str(),
    }
}

/// Characters that a note name may not hold.
pub open spec fn forbidden_in_name(c: char) -> bool {
    c == '/' || c == '\\' || c == ':' || c == '*' || c == '?' || c == '"' || c == '<' || c == '>'
        || c == '|'
}

/// `s` with the forbidden characters left out.
pub open spec fn without_forbidden(s: Seq<char>) -> Seq<char>
    decreases s.len(),
{
    if s.len() == 0 {
        s
    } else if forbidden_in_name(s.last()) {
        without_forbidden(s.drop_last())
    } else {
        without_forbidden(s.drop_last()).push(s.last())
    }
}

/// A note name as typed, trimmed and rid of the characters a file name may not hold.
pub open spec fn sanitized(name: Seq<char>) -> Seq<char> {
    without_forbidden(trimmed(name))
}

/// Trimming the start does not lengthen the text.
proof fn lemma_trim_start_shorter(s: Seq<char>)
    ensures
        byte_len(crate::strings::trim_start_spec(s)) <= byte_len(s),
    decreases s.len(),
{
    if s.len() > 0 && crate::strings::is_white_space(s[0]) {
        lemma_trim_start_shorter(s.drop_first());
        lemma_byte_len_drop_first(s);
    }
}

/// Trimming the end does not lengthen the text.
proof fn lemma_trim_end_shorter(s: Seq<char>)
    ensures
        byte_len(crate::strings::trim_end_spec(s)) <= byte_len(s),
    decreases s.len(),
{
    if s.len() > 0 && crate::strings::is_white_space(s.last()) {
        lemma_trim_end_shorter(s.drop_last());
        lemma_byte_len_drop_last(s);
    }
}

/// Leaving characters out does not lengthen the text.
proof fn lemma_without_forbidden_shorter(s: Seq<char>)
    ensures
        byte_len(without_forbidden(s)) <= byte_len(s),
    decreases s.len(),
{
    if s.len() > 0 {
        lemma_without_forbidden_shorter(s.drop_last());
        lemma_byte_len_drop_last(s);
        if !forbidden_in_name(s.last()) {
            lemma_byte_len_push(without_forbidden(s.drop_last()), s.last());
        }
    }
}

/// Leaving out the forbidden characters keeps a text that holds none of them.
proof fn lemma_without_forbidden_clean(s: Seq<char>)
    requires
        forall|i: int| 0 <= i < s.len() ==> !forbidden_in_name(#[trigger] s[i]),
    ensures
        without_forbidden(s) == s,
    decreases s.len(),
{
    if s.len() > 0 {
        lemma_without_forbidden_clean(s.drop_last());
        assert(s.drop_last().push(s.last()) =~= s);
    }
}

/// Sanitizing leaves out only the nine characters that a file name may not hold,
/// `/ \ : * ? " < > |`: a trimmed name free of them is kept as it is, and no
/// sanitized name holds any of them.
pub proof fn lemma_sanitize_drops_only_forbidden(name: Seq<char>)
    ensures
        (forall|i: int|
            0 <= i < trimmed(name).len() ==> {
                let c = #[trigger] trimmed(name)[i];
                c != '/' && c != '\\' && c != ':' && c != '*' && c != '?' && c != '"' && c
                    != '<' && c != '>' && c != '|'
            }) ==> sanitized(name) == trimmed(name),
        !sanitized(name).contains('/'),
        !sanitized(name).contains('\\'),
        !sanitized(name).contains(':'),
        !sanitized(name).contains('*'),
        !sanitized(name).contains('?'),
        !sanitized(name).contains('"'),
        !sanitized(name).contains('<'),
        !sanitized(name).contains('>'),
        !sanitized(name).contains('|'),
{
    let t = trimmed(name);
    if forall|i: int|
        0 <= i < t.len() ==> {
            let c = #[trigger] t[i];
            c != '/' && c != '\\' && c != ':' && c != '*' && c != '?' && c != '"' && c != '<'
                && c != '>' && c != '|'
        } {
        lemma_without_forbidden_clean(t);
    }
    lemma_sanitized_clean(t, '/');
    lemma_sanitized_clean(t, '\\');
    lemma_sanitized_clean(t, ':');
    lemma_sanitized_clean(t, '*');
    lemma_sanitized_clean(t, '?');
    lemma_sanitized_clean(t, '"');
    lemma_sanitized_clean(t, '<');
    lemma_sanitized_clean(t, '>');
    lemma_sanitized_clean(t, '|');
}

/// Trims the name and leaves out the characters that a file name may not hold.
pub fn sanitize_name(name: &str) -> (clean: String)
    requires
        fits(name@),
    ensures
        clean@ == sanitized(name@),
{
    let t = trim_str(name);
    let ghost s = t@;
    proof {
        lemma_trim_start_shorter(name@);
        lemma_trim_end_shorter(crate::strings::trim_start_spec(name@));
        assert(s.take(0) =~= Seq::<char>::empty());
    }
    let mut clean = String::new();
    for ch in it: t.chars()
        invariant
            it.seq() == s,
            s == t@,
            byte_len(s) <= isize::MAX,
            clean@ == without_forbidden(s.take(it.index())),
    {
        let ghost i = it.index();
        proof {
            let u = s.take(i + 1);
            assert(u.drop_last() =~= s.take(i));
            assert(u.last() == ch);
            lemma_without_forbidden_shorter(s.take(i));
            assert(s =~= s.take(i) + s.skip(i));
            lemma_encode_concat(s.take(i), s.skip(i));
            assert(s.skip(i) =~= seq![ch] + s.skip(i + 1));
            lemma_encode_concat(seq![ch], s.skip(i + 1));
            lemma_encode_single(ch);
        }
        if !(ch == '/' || ch == '\\' || ch == ':' || ch == '*' || ch == '?' || ch == '"' || ch == '<'
            || ch == '>' || ch == '|') {
            string_push(&mut clean, ch);
        }
    }
    proof {
        assert(s.take(s.len() as int) =~= s);
    }
    clean
}

/// The characters of `s`, in order.
pub fn chars_of(s: &str) -> (v: Vec<char>)
    ensures
        v@ == s@,
{
    let mut v: Vec<char> = Vec::new();
    for ch in it: s.chars()
        invariant
            it.seq() == s@,
            v@ == s@.take(it.index()),
    {
        proof {
            assert(s@.take(it.index() + 1) =~= s@.take(it.index()).push(ch));
        }
        v.push(ch);
    }
    proof {
        assert(s@.take(s@.len() as int) =~= s@);
    }
    v
}

/// The two strings hold the same characters.
pub fn same_text(a: &str, b: &str) -> (same: bool)
    ensures
        same == (a@ == b@),
{
    let x = chars_of(a);
    let y = chars_of(b);
    if x.len() != y.len() {
        return false;
    }
    let mut i: usize = 0;
    while i < x.len()
        invariant
            x@ == a@,
            y@ == b@,
            x.len() == y.len(),
            i <= x.len(),
            forall|j: int| 0 <= j < i ==> x@[j] == y@[j],
        decreases x.len() - i,
    {
        if x[i] != y[i] {
            return false;
        }
        i = i + 1;
    }
    proof {
        assert(x@ =~= y@);
    }
    true
}

/// Lexicographic order of names, character by character, by code point; it is the
/// order of `str`, whose byte order UTF-8 keeps.
pub open spec fn name_le(a: Seq<char>, b: Seq<char>) -> bool
    decreases a.len(),
{
    if a.len() == 0 {
        true
    } else if b.len() == 0 {
        false
    } else if a[0] != b[0] {
        (a[0] as u32) < (b[0] as u32)
    } else {
        name_le(a.drop_first(), b.drop_first())
    }
}

/// Whether `a` comes no later than `b` in name order.
pub fn name_le_exec(a: &str, b: &str) -> (le: bool)
    ensures
        le == name_le(a@, b@),
{
    let x = chars_of(a);
    let y = chars_of(b);
    let mut i: usize = 0;
    proof {
        assert(a@.skip(0) =~= a@);
        assert(b@.skip(0) =~= b@);
    }
    while i < x.len() && i < y.len()
        invariant
            x@ == a@,
            y@ == b@,
            i <= x.len(),
            i <= y.len(),
            name_le(a@, b@) == name_le(a@.skip(i as int), b@.skip(i as int)),
        decreases x.len() - i,
    {
        if x[i] != y[i] {
            proof {
                assert(a@.skip(i as int)[0] == x@[i as int]);
                assert(b@.skip(i as int)[0] == y@[i as int]);
            }
            return (x[i] as u32) < (y[i] as u32);
        }
        proof {
            assert(a@.skip(i as int).drop_first() =~= a@.skip(i + 1));
            assert(b@.skip(i as int).drop_first() =~= b@.skip(i + 1));
        }
        i = i + 1;
    }
    proof {
        assert(a@.skip(i as int).len() == a@.len() - i);
        assert(b@.skip(i as int).len() == b@.len() - i);
    }
    i == x.len()
}

/// Where `x` goes among `s` so that it follows every entry named no later than it:
/// the first entry whose name comes after that of `x`.
pub open spec fn insertion_point(s: Seq<BrowserEntry>, x: BrowserEntry) -> int
    decreases s.len(),
{
    if s.len() == 0 {
        0
    } else if !name_le(entry_name_spec(s[0]), entry_name_spec(x)) {
        0
    } else {
        1 + insertion_point(s.drop_first(), x)
    }
}

/// The entries in name order; entries of equal name keep their order (a stable sort).
pub open spec fn sorted_by_name(s: Seq<BrowserEntry>) -> Seq<BrowserEntry>
    decreases s.len(),
{
    if s.len() == 0 {
        s
    } else {
        let r = sorted_by_name(s.drop_last());
        r.insert(insertion_point(r, s.last()), s.last())
    }
}

/// The insertion point lies within the entries.
proof fn lemma_insertion_point_bound(s: Seq<BrowserEntry>, x: BrowserEntry)
    ensures
        0 <= insertion_point(s, x) <= s.len(),
    decreases s.len(),
{
    if s.len() > 0 {
        lemma_insertion_point_bound(s.drop_first(), x);
    }
}

/// Sorts the entries by name; entries of equal name keep their order.
pub fn sort_by_name(entries: Vec<BrowserEntry>) -> (sorted: Vec<BrowserEntry>)
    ensures
        sorted@ == sorted_by_name(entries@),
{
    let ghost input = entries@;
    let mut rest = entries;
    let mut sorted: Vec<BrowserEntry> = Vec::new();
    proof {
        assert(input.take(0) =~= Seq::<BrowserEntry>::empty());
        assert(input.skip(0) =~= input);
    }
    while rest.len() > 0
        invariant
            rest@ == input.skip(input.len() - rest.len()),
            rest.len() <= input.len(),
            sorted@ == sorted_by_name(input.take(input.len() - rest.len())),
        decreases rest.len(),
    {
        let ghost n = input.len() - rest.len();
        let x = rest.remove(0);
        proof {
            assert(x == input[n]);
            assert(rest@ =~= input.skip(n + 1));
            let t = input.take(n + 1);
            assert(t.drop_last() =~= input.take(n));
            assert(t.last() == x);
        }
        let mut j: usize = 0;
        proof {
            assert(sorted@.skip(0) =~= sorted@);
        }
        while j < sorted.len() && name_le_exec(entry_name(&sorted[j]), entry_name(&x))
            invariant
                j <= sorted.len(),
                insertion_point(sorted@, x) == j + insertion_point(sorted@.skip(j as int), x),
            decreases sorted.len() - j,
        {
            proof {
                assert(sorted@.skip(j as int)[0] == sorted@[j as int]);
                assert(sorted@.skip(j as int).drop_first() =~= sorted@.skip(j + 1));
            }
            j = j + 1;
        }
        proof {
            if j < sorted.len() {
                assert(sorted@.skip(j as int)[0] == sorted@[j as int]);
            } else {
                assert(sorted@.skip(j as int).len() == 0);
            }
        }
        sorted.insert(j, x);
    }
    proof {
        assert(input.take(input.len() as int) =~= input);
    }
    sorted
}

/// The browser listing: the parent entry first where there is one, then the
/// directories, then the notes, each group in name order.
pub open spec fn arranged(
    include_parent: bool,
    directories: Seq<BrowserEntry>,
    notes: Seq<BrowserEntry>,
) -> Seq<BrowserEntry> {
    (if include_parent {
        seq![BrowserEntry::Parent]
    } else {
        Seq::empty()
    }) + sorted_by_name(directories) + sorted_by_name(notes)
}

/// Orders a directory listing: the parent entry first (outside the root), then the
/// directories, then the notes, each group in name order.
pub fn arrange_entries(
    include_parent: bool,
    directories: Vec<BrowserEntry>,
    notes: Vec<BrowserEntry>,
) -> (entries: Vec<BrowserEntry>)
    ensures
        entries@ == arranged(include_parent, directories@, notes@),
{
    let mut entries: Vec<BrowserEntry> = Vec::new();
    if include_parent {
        entries.push(BrowserEntry::Parent);
    }
    let mut dirs = sort_by_name(directories);
    let mut files = sort_by_name(notes);
    let ghost start = entries@;
    entries.append(&mut dirs);
    entries.append(&mut files);
    proof {
        if include_parent {
            assert(start =~= seq![BrowserEntry::Parent]);
        } else {
            assert(start =~= Seq::<BrowserEntry>::empty());
        }
    }
    entries
}

/// The listing of `dir` under the notes root: the parent entry where `dir` is not
/// the root (as paths compare), then the directories, then the notes, each group in
/// name order.
pub fn directory_listing(
    root: &str,
    dir: &str,
    directories: Vec<BrowserEntry>,
    notes: Vec<BrowserEntry>,
) -> (entries: Vec<BrowserEntry>)
    ensures
        entries@ == arranged(!same_path(dir@, root@), directories@, notes@),
        dir@ == root@ ==> entries@ == arranged(false, directories@, notes@),
        simple_path(dir@) && simple_path(root@) ==> entries@ == arranged(
            dir@ != root@,
            directories@,
            notes@,
        ),
{
    let at_root = paths_equal(dir, root);
    arrange_entries(!at_root, directories, notes)
}

/// Any two names are ordered one way or the other.
pub proof fn lemma_name_le_total(a: Seq<char>, b: Seq<char>)
    ensures
        name_le(a, b) || name_le(b, a),
    decreases a.len(),
{
    if a.len() > 0 && b.len() > 0 && a[0] == b[0] {
        lemma_name_le_total(a.drop_first(), b.drop_first());
    } else if a.len() > 0 && b.len() > 0 {
        assert(a[0] as u32 != b[0] as u32) by {
            vstd::utf8::char_u32_cast(a[0], a[0] as u32);
            vstd::utf8::char_u32_cast(b[0], b[0] as u32);
        }
    }
}

/// Name order is transitive.
pub proof fn lemma_name_le_trans(a: Seq<char>, b: Seq<char>, c: Seq<char>)
    requires
        name_le(a, b),
        name_le(b, c),
    ensures
        name_le(a, c),
    decreases a.len(),
{
    if a.len() > 0 && b.len() > 0 && c.len() > 0 {
        if a[0] == b[0] && b[0] == c[0] {
            lemma_name_le_trans(a.drop_first(), b.drop_first(), c.drop_first());
        }
    }
}

/// In name order a proper prefix comes first: a name comes before every longer name
/// that extends it, and never after one.
pub proof fn lemma_name_prefix_first(a: Seq<char>, t: Seq<char>)
    requires
        t.len() > 0,
    ensures
        name_le(a, a + t),
        !name_le(a + t, a),
    decreases a.len(),
{
    if a.len() > 0 {
        assert((a + t)[0] == a[0]);
        assert((a + t).drop_first() =~= a.drop_first() + t);
        lemma_name_prefix_first(a.drop_first(), t);
    } else {
        assert(a + t =~= t);
    }
}

/// After a common beginning, the first characters that differ decide the order, by
/// code point, whatever follows them.
pub proof fn lemma_name_first_difference(
    p: Seq<char>,
    x: char,
    y: char,
    r: Seq<char>,
    u: Seq<char>,
)
    requires
        (x as u32) < (y as u32),
    ensures
        name_le(p.push(x) + r, p.push(y) + u),
        !name_le(p.push(y) + u, p.push(x) + r),
    decreases p.len(),
{
    let a = p.push(x) + r;
    let b = p.push(y) + u;
    if p.len() > 0 {
        assert(a[0] == p[0]);
        assert(b[0] == p[0]);
        assert(a.drop_first() =~= p.drop_first().push(x) + r);
        assert(b.drop_first() =~= p.drop_first().push(y) + u);
        lemma_name_first_difference(p.drop_first(), x, y, r, u);
    } else {
        assert(a[0] == x);
        assert(b[0] == y);
    }
}

/// Every entry before the insertion point is named no later than `x`, and the
/// entry at it is named later.
proof fn lemma_insertion_point(s: Seq<BrowserEntry>, x: BrowserEntry)
    ensures
        0 <= insertion_point(s, x) <= s.len(),
        forall|i: int|
            0 <= i < insertion_point(s, x) ==> name_le(
                #[trigger] entry_name_spec(s[i]),
                entry_name_spec(x),
            ),
        insertion_point(s, x) < s.len() ==> !name_le(
            entry_name_spec(s[insertion_point(s, x)]),
            entry_name_spec(x),
        ),
    decreases s.len(),
{
    if s.len() > 0 && name_le(entry_name_spec(s[0]), entry_name_spec(x)) {
        let t = s.drop_first();
        lemma_insertion_point(t, x);
        assert forall|i: int| 0 <= i < insertion_point(s, x) implies name_le(
            #[trigger] entry_name_spec(s[i]),
            entry_name_spec(x),
        ) by {
            if i > 0 {
                assert(s[i] == t[i - 1]);
            }
        }
    }
}

/// The entries are in name order.
pub open spec fn is_name_sorted(s: Seq<BrowserEntry>) -> bool {
    forall|i: int, j: int|
        0 <= i < j < s.len() ==> name_le(
            #[trigger] entry_name_spec(s[i]),
            #[trigger] entry_name_spec(s[j]),
        )
}

/// Sorting by name gives entries in name order.
pub proof fn lemma_sorted_by_name_sorted(s: Seq<BrowserEntry>)
    ensures
        is_name_sorted(sorted_by_name(s)),
    decreases s.len(),
{
    if s.len() > 0 {
        let r = sorted_by_name(s.drop_last());
        lemma_sorted_by_name_sorted(s.drop_last());
        let x = s.last();
        let p = insertion_point(r, x);
        lemma_insertion_point(r, x);
        let t = r.insert(p, x);
        assert(t == sorted_by_name(s));
        assert forall|i: int, j: int| 0 <= i < j < t.len() implies name_le(
            #[trigger] entry_name_spec(t[i]),
            #[trigger] entry_name_spec(t[j]),
        ) by {
            let kx = entry_name_spec(x);
            if j < p {
                assert(t[i] == r[i] && t[j] == r[j]);
            } else if j == p {
                assert(t[i] == r[i]);
            } else if i == p {
                assert(t[j] == r[j - 1]);
                lemma_name_le_total(entry_name_spec(r[p]), kx);
                if j - 1 > p {
                    lemma_name_le_trans(kx, entry_name_spec(r[p]), entry_name_spec(r[j - 1]));
                }
            } else if i < p {
                assert(t[i] == r[i] && t[j] == r[j - 1]);
            } else {
                assert(t[i] == r[i - 1] && t[j] == r[j - 1]);
            }
        }
    }
}

/// Sorting by name neither drops nor adds an entry.
pub proof fn lemma_sorted_by_name_permutes(s: Seq<BrowserEntry>)
    ensures
        sorted_by_name(s).to_multiset() == s.to_multiset(),
    decreases s.len(),
{
    broadcast use vstd::seq_lib::group_to_multiset_ensures;

    if s.len() == 0 {
    } else {
        let r = sorted_by_name(s.drop_last());
        lemma_sorted_by_name_permutes(s.drop_last());
        lemma_insertion_point_bound(r, s.last());
        vstd::seq_lib::to_multiset_insert(r, insertion_point(r, s.last()), s.last());
        vstd::seq_lib::to_multiset_build(s.drop_last(), s.last());
        assert(s.drop_last().push(s.last()) =~= s);
    }
}

/// Sorting keeps a property that every entry has.
pub proof fn lemma_sorted_by_name_keeps(s: Seq<BrowserEntry>, p: spec_fn(BrowserEntry) -> bool)
    requires
        forall|i: int| 0 <= i < s.len() ==> p(#[trigger] s[i]),
    ensures
        sorted_by_name(s).len() == s.len(),
        forall|i: int| 0 <= i < sorted_by_name(s).len() ==> p(#[trigger] sorted_by_name(s)[i]),
    decreases s.len(),
{
    if s.len() > 0 {
        let r = sorted_by_name(s.drop_last());
        assert forall|i: int| 0 <= i < s.drop_last().len() implies p(#[trigger] s.drop_last()[i]) by {
            assert(s.drop_last()[i] == s[i]);
        }
        lemma_sorted_by_name_keeps(s.drop_last(), p);
        lemma_insertion_point_bound(r, s.last());
        let q = insertion_point(r, s.last());
        let t = r.insert(q, s.last());
        assert forall|i: int| 0 <= i < t.len() implies p(#[trigger] t[i]) by {
            if i < q {
                assert(t[i] == r[i]);
            } else if i > q {
                assert(t[i] == r[i - 1]);
            }
        }
    }
}

/// The entries named `name`, in order.
pub open spec fn with_name(s: Seq<BrowserEntry>, name: Seq<char>) -> Seq<BrowserEntry>
    decreases s.len(),
{
    if s.len() == 0 {
        s
    } else if entry_name_spec(s.last()) == name {
        with_name(s.drop_last(), name).push(s.last())
    } else {
        with_name(s.drop_last(), name)
    }
}

/// Picking the entries of a name distributes over concatenation.
proof fn lemma_with_name_concat(a: Seq<BrowserEntry>, b: Seq<BrowserEntry>, name: Seq<char>)
    ensures
        with_name(a + b, name) == with_name(a, name) + with_name(b, name),
    decreases b.len(),
{
    if b.len() == 0 {
        assert(a + b =~= a);
        assert(with_name(a, name) + with_name(b, name) =~= with_name(a, name));
    } else {
        assert((a + b).drop_last() =~= a + b.drop_last());
        assert((a + b).last() == b.last());
        lemma_with_name_concat(a, b.drop_last(), name);
        if entry_name_spec(b.last()) == name {
            assert(with_name(a, name) + with_name(b.drop_last(), name).push(b.last()) =~= (
            with_name(a, name) + with_name(b.drop_last(), name)).push(b.last()));
        }
    }
}

/// Where no entry has the name, none is picked.
proof fn lemma_with_name_none(s: Seq<BrowserEntry>, name: Seq<char>)
    requires
        forall|i: int| 0 <= i < s.len() ==> entry_name_spec(#[trigger] s[i]) != name,
    ensures
        with_name(s, name) == Seq::<BrowserEntry>::empty(),
    decreases s.len(),
{
    if s.len() > 0 {
        assert forall|i: int| 0 <= i < s.drop_last().len() implies entry_name_spec(
            #[trigger] s.drop_last()[i],
        ) != name by {
            assert(s.drop_last()[i] == s[i]);
        }
        lemma_with_name_none(s.drop_last(), name);
        assert(entry_name_spec(s[s.len() - 1]) != name);
    }
}

/// Every name comes no later than itself.
pub proof fn lemma_name_le_refl(a: Seq<char>)
    ensures
        name_le(a, a),
    decreases a.len(),
{
    if a.len() > 0 {
        lemma_name_le_refl(a.drop_first());
    }
}

/// Sorting by name is stable: for every name, the entries of that name come out in
/// the order they went in (so, with the entries of other names, none is dropped or
/// added).
pub proof fn lemma_sorted_by_name_stable(s: Seq<BrowserEntry>, name: Seq<char>)
    ensures
        with_name(sorted_by_name(s), name) == with_name(s, name),
    decreases s.len(),
{
    if s.len() > 0 {
        let t = s.drop_last();
        let x = s.last();
        let r = sorted_by_name(t);
        lemma_sorted_by_name_stable(t, name);
        lemma_sorted_by_name_sorted(t);
        lemma_insertion_point(r, x);
        let p = insertion_point(r, x);
        assert(r.insert(p, x) =~= r.take(p) + (seq![x] + r.skip(p)));
        lemma_with_name_concat(r.take(p), seq![x] + r.skip(p), name);
        lemma_with_name_concat(seq![x], r.skip(p), name);
        assert(r =~= r.take(p) + r.skip(p));
        lemma_with_name_concat(r.take(p), r.skip(p), name);
        assert(seq![x].drop_last() =~= Seq::<BrowserEntry>::empty());
        assert(with_name(Seq::<BrowserEntry>::empty(), name) =~= Seq::<BrowserEntry>::empty());
        if entry_name_spec(x) == name {
            // No entry of this name lies at or after the insertion point.
            assert forall|i: int| 0 <= i < r.skip(p).len() implies entry_name_spec(
                #[trigger] r.skip(p)[i],
            ) != name by {
                assert(r.skip(p)[i] == r[p + i]);
                if entry_name_spec(r[p + i]) == name {
                    lemma_name_le_refl(name);
                    if i > 0 {
                        lemma_name_le_trans(
                            entry_name_spec(r[p]),
                            entry_name_spec(r[p + i]),
                            entry_name_spec(x),
                        );
                    }
                }
            }
            lemma_with_name_none(r.skip(p), name);
            assert(with_name(seq![x], name) =~= seq![x]);
            assert(with_name(r, name) + with_name(r.skip(p), name) =~= with_name(r, name));
            assert(with_name(r.take(p), name) + (seq![x] + Seq::<BrowserEntry>::empty()) =~= (
            with_name(r.take(p), name) + Seq::<BrowserEntry>::empty()).push(x));
        } else {
            assert(with_name(seq![x], name) =~= Seq::<BrowserEntry>::empty());
            assert(with_name(r.take(p), name) + (Seq::<BrowserEntry>::empty() + with_name(
                r.skip(p),
                name,
            )) =~= with_name(r.take(p), name) + with_name(r.skip(p), name));
        }
    }
}

/// Place of an entry kind in the listing: the parent, then directories, then notes.
pub open spec fn kind_rank(entry: BrowserEntry) -> int {
    match entry {
        BrowserEntry::Parent => 0,
        BrowserEntry::Directory { .. } => 1,
        BrowserEntry::Note(_) => 2,
    }
}

/// The listing puts the parent entry first where there is one, then every directory
/// before every note, and within each group the names in order; it holds every
/// directory and every note it was given.
pub proof fn lemma_arranged_order(
    include_parent: bool,
    directories: Seq<BrowserEntry>,
    notes: Seq<BrowserEntry>,
)
    requires
        forall|i: int| 0 <= i < directories.len() ==> #[trigger] directories[i] is Directory,
        forall|i: int| 0 <= i < notes.len() ==> #[trigger] notes[i] is Note,
    ensures
        ({
            let r = arranged(include_parent, directories, notes);
            &&& r.len() == directories.len() + notes.len() + if include_parent {
                1int
            } else {
                0int
            }
            &&& include_parent ==> r[0] is Parent
            &&& forall|i: int, j: int|
                0 <= i < j < r.len() ==> kind_rank(#[trigger] r[i]) <= kind_rank(#[trigger] r[j])
            &&& is_name_sorted(sorted_by_name(directories))
            &&& is_name_sorted(sorted_by_name(notes))
            &&& sorted_by_name(directories).to_multiset() == directories.to_multiset()
            &&& sorted_by_name(notes).to_multiset() == notes.to_multiset()
        }),
{
    let is_dir = |e: BrowserEntry| e is Directory;
    let is_note = |e: BrowserEntry| e is Note;
    lemma_sorted_by_name_keeps(directories, is_dir);
    lemma_sorted_by_name_keeps(notes, is_note);
    lemma_sorted_by_name_sorted(directories);
    lemma_sorted_by_name_sorted(notes);
    lemma_sorted_by_name_permutes(directories);
    lemma_sorted_by_name_permutes(notes);
    let head: Seq<BrowserEntry> = if include_parent {
        seq![BrowserEntry::Parent]
    } else {
        Seq::empty()
    };
    let d = sorted_by_name(directories);
    let n = sorted_by_name(notes);
    let r = arranged(include_parent, directories, notes);
    assert(r == head + d + n);
    assert forall|i: int| 0 <= i < r.len() implies kind_rank(#[trigger] r[i]) == if i < head.len() {
        0int
    } else if i < head.len() + d.len() {
        1int
    } else {
        2int
    } by {
        if i < head.len() {
            assert(r[i] == head[i]);
        } else if i < head.len() + d.len() {
            assert(r[i] == d[i - head.len()]);
            assert(is_dir(d[i - head.len()]));
        } else {
            assert(r[i] == n[i - head.len() - d.len()]);
            assert(is_note(n[i - head.len() - d.len()]));
        }
    }
}

/// Why a note could not be created or deleted.
#[derive(Clone, Copy, Debug, PartialEq, Eq)]
pub enum NoteError {
    EmptyName,
    AlreadyExists,
    NotFound,
}

impl NoteError {
    /// The message shown to the user.
    pub fn message(&self) -> (text: &'static str)
        ensures
            text@ == match *self {
                NoteError::EmptyName => "Note name cannot be empty"@,
                NoteError::AlreadyExists => "A note with this name already exists"@,
                NoteError::NotFound => "Note file not found"@,
            },
    {
        match self {
            NoteError::EmptyName => "Note name cannot be empty",
            NoteError::AlreadyExists => "A note with this name already exists",
            NoteError::NotFound => "Note file not found",
        }
    }
}

/// The file name of a new note: the sanitized name with the `.md` extension.
pub open spec fn note_file_name(name: Seq<char>) -> Seq<char> {
    sanitized(name) + ".md"@
}

/// No forbidden character is left.
proof fn lemma_sanitized_clean(s: Seq<char>, c: char)
    requires
        forbidden_in_name(c),
    ensures
        !without_forbidden(s).contains(c),
    decreases s.len(),
{
    if s.len() > 0 {
        lemma_sanitized_clean(s.drop_last(), c);
        let r = without_forbidden(s.drop_last());
        if !forbidden_in_name(s.last()) {
            assert forall|i: int| 0 <= i < r.push(s.last()).len() implies r.push(s.last())[i]
                != c by {
                if i < r.len() {
                    assert(r.push(s.last())[i] == r[i]);
                }
            }
        }
    }
}

/// Where a note with the given name goes in `dir`: the file `<name>.md`, the name
/// being sanitized first. A name that sanitizes to nothing is refused.
pub fn new_note_path(dir: &str, name: &str) -> (path: Result<String, NoteError>)
    requires
        fits(name@),
    ensures
        path is Err <==> sanitized(name@).len() == 0,
        path matches Err(e) ==> e == NoteError::EmptyName,
        path matches Ok(p) ==> join_shape(dir@, note_file_name(name@), p@),
{
    let mut file = sanitize_name(name);
    if file.as_str().is_empty() {
        return Err(NoteError::EmptyName);
    }
    file.append(".md");
    proof {
        reveal_strlit(".md");
        reveal_strlit(".");
        reveal_strlit("..");
        let base = sanitized(name@);
        lemma_sanitized_clean(trimmed(name@), '/');
        lemma_sanitized_clean(trimmed(name@), '\\');
        lemma_sanitized_clean(trimmed(name@), ':');
        assert(!(base + ".md"@).contains('/')) by {
            if (base + ".md"@).contains('/') {
                let i = choose|i: int| 0 <= i < (base + ".md"@).len() && (base + ".md"@)[i] == '/';
                assert(i < base.len());
                assert(base[i] == '/');
            }
        }
        assert(!(base + ".md"@).contains('\\')) by {
            if (base + ".md"@).contains('\\') {
                let i = choose|i: int| 0 <= i < (base + ".md"@).len() && (base + ".md"@)[i] == '\\';
                assert(i < base.len());
                assert(base[i] == '\\');
            }
        }
        assert(!(base + ".md"@).contains(':')) by {
            if (base + ".md"@).contains(':') {
                let i = choose|i: int| 0 <= i < (base + ".md"@).len() && (base + ".md"@)[i] == ':';
                assert(i < base.len());
                assert(base[i] == ':');
            }
        }
    }
    let joined = path_join(dir, file.as_str());
    Ok(joined)
}

/// The extension of a note file: `md` or `txt`.
pub open spec fn is_note_extension_spec(ext: Option<Seq<char>>) -> bool {
    match ext {
        Some(e) => e == "md"@ || e == "txt"@,
        None => false,
    }
}

/// Whether a file extension marks a note.
pub fn is_note_extension(ext: Option<&str>) -> (note: bool)
    ensures
        note == is_note_extension_spec(
            match ext {
                Some(e) => Some(e@),
                None => None,
            },
        ),
{
    match ext {
        Some(e) => same_text(e, "md") || same_text(e, "txt"),
        None => false,
    }
}

/// Whether the path names a note: a file (as the caller found on disk) whose
/// extension is `md` or `txt`.
pub fn is_note_file(path: &str, is_file: bool) -> (note: bool)
    ensures
        note ==> is_file,
        plain_path(path@) ==> note == (is_file && is_note_extension_spec(plain_extension(path@))),
{
    if !is_file {
        return false;
    }
    let ext = path_extension(path);
    match ext {
        Some(e) => is_note_extension(Some(e.as_str())),
        None => false,
    }
}

/// `s` with every backslash turned into a forward slash.
pub open spec fn forward_slashes(s: Seq<char>) -> Seq<char> {
    s.map_values(|c: char| if c == '\\' { '/' } else { c })
}

/// Turns every backslash into a forward slash.
pub fn with_forward_slashes(s: &str) -> (t: String)
    requires
        fits(s@),
    ensures
        t@ == forward_slashes(s@),
{
    let mut t = String::new();
    proof {
        assert(s@.take(0) =~= Seq::<char>::empty());
        assert(forward_slashes(s@.take(0)) =~= Seq::<char>::empty());
    }
    for ch in it: s.chars()
        invariant
            it.seq() == s@,
            fits(s@),
            t@ == forward_slashes(s@.take(it.index())),
    {
        let ghost i = it.index();
        proof {
            assert(forward_slashes(s@.take(i + 1)) =~= forward_slashes(s@.take(i)).push(
                if ch == '\\' { '/' } else { ch },
            ));
            assert(s@ =~= s@.take(i) + s@.skip(i));
            lemma_encode_concat(s@.take(i), s@.skip(i));
            assert(s@.skip(i) =~= seq![ch] + s@.skip(i + 1));
            lemma_encode_concat(seq![ch], s@.skip(i + 1));
            lemma_encode_single(ch);
            lemma_forward_slashes_len(s@.take(i));
            lemma_char_width('/');
        }
        if ch == '\\' {
            string_push(&mut t, '/');
        } else {
            string_push(&mut t, ch);
        }
    }
    proof {
        assert(s@.take(s@.len() as int) =~= s@);
    }
    t
}

/// Turning backslashes into slashes keeps the byte length.
proof fn lemma_forward_slashes_len(s: Seq<char>)
    ensures
        byte_len(forward_slashes(s)) == byte_len(s),
    decreases s.len(),
{
    if s.len() > 0 {
        let t = s.drop_last();
        lemma_forward_slashes_len(t);
        assert(forward_slashes(s) =~= forward_slashes(t).push(
            if s.last() == '\\' { '/' } else { s.last() },
        ));
        lemma_byte_len_push(forward_slashes(t), if s.last() == '\\' { '/' } else { s.last() });
        lemma_byte_len_drop_last(s);
        lemma_char_width('/');
        lemma_char_width('\\');
    }
}

/// How a path is shown relative to the root: what is left after the root (or the
/// whole path where the root is not its prefix), with forward slashes.
pub fn relative_display(stripped: Option<&str>, path: &str) -> (shown: String)
    requires
        fits(path@),
        stripped matches Some(s) ==> fits(s@),
    ensures
        shown@ == forward_slashes(
            match stripped {
                Some(s) => s@,
                None => path@,
            },
        ),
{
    match stripped {
        Some(s) => with_forward_slashes(s),
        None => with_forward_slashes(path),
    }
}

/// A stretch of a text within memory is within memory.
proof fn lemma_subrange_fits(s: Seq<char>, i: int, j: int)
    requires
        fits(s),
        0 <= i <= j <= s.len(),
    ensures
        fits(s.subrange(i, j)),
{
    assert(s =~= s.subrange(0, i) + s.subrange(i, j) + s.subrange(j, s.len() as int));
    lemma_encode_concat(s.subrange(0, i) + s.subrange(i, j), s.subrange(j, s.len() as int));
    lemma_encode_concat(s.subrange(0, i), s.subrange(i, j));
}

/// A text without backslashes is left as it is by `forward_slashes`.
proof fn lemma_forward_slashes_plain(s: Seq<char>)
    requires
        !s.contains('\\'),
    ensures
        forward_slashes(s) == s,
{
    assert forall|k: int| 0 <= k < s.len() implies forward_slashes(s)[k] == s[k] by {
        assert(s[k] != '\\');
    }
    assert(forward_slashes(s) =~= s);
}

/// A simple path holds no backslash, nor does what `component_rest` leaves of it.
proof fn lemma_simple_rest_plain(path: Seq<char>, base: Seq<char>)
    requires
        simple_path(path),
    ensures
        !path.contains('\\'),
        component_rest(path, base) matches Some(r) ==> !r.contains('\\'),
{
    if path.contains('\\') {
        let k = choose|k: int| 0 <= k < path.len() && path[k] == '\\';
        if !crate::strings::simple_relative(path) {
            assert(path.drop_first()[k - 1] == '\\');
        }
    }
    if let Some(r) = component_rest(path, base) {
        if r.contains('\\') {
            let k = choose|k: int| 0 <= k < r.len() && r[k] == '\\';
            assert(path[k + base.len() + 1] == '\\');
        }
    }
}

/// How `relative_path` and `relative_dir` show a path: for simple paths, what follows
/// the root's components, or the whole path where the root is not its prefix.
pub open spec fn shown_relative(root: Seq<char>, path: Seq<char>) -> Seq<char> {
    match component_rest(path, root) {
        Some(r) => r,
        None => path,
    }
}

/// Shows `path` relative to `root`: what is left after the root's components (or the
/// whole path where the root is not its prefix), with forward slashes.
fn show_relative(root: &str, path: &str) -> (shown: String)
    requires
        fits(path@),
    ensures
        exists|i: int, j: int|
            0 <= i <= j <= path@.len() && shown@ == forward_slashes(path@.subrange(i, j)),
        simple_path(path@) && simple_path(root@) ==> shown@ == shown_relative(root@, path@),
{
    let stripped = path_strip_prefix(path, root);
    proof {
        if simple_path(path@) && simple_path(root@) {
            lemma_simple_rest_plain(path@, root@);
        }
    }
    match stripped {
        Some(rest) => {
            proof {
                let (i, j) = choose|i: int, j: int|
                    0 <= i <= j <= path@.len() && rest@ == path@.subrange(i, j);
                lemma_subrange_fits(path@, i, j);
                if simple_path(path@) && simple_path(root@) {
                    lemma_forward_slashes_plain(rest@);
                }
            }
            relative_display(Some(rest.as_str()), path)
        },
        None => {
            proof {
                assert(path@.subrange(0, path@.len() as int) =~= path@);
                if simple_path(path@) && simple_path(root@) {
                    lemma_forward_slashes_plain(path@);
                }
            }
            relative_display(None, path)
        },
    }
}

/// The path of a note relative to the notes root, with forward slashes.
pub fn relative_path(root: &str, path: &str) -> (shown: String)
    requires
        fits(path@),
    ensures
        exists|i: int, j: int|
            0 <= i <= j <= path@.len() && shown@ == forward_slashes(path@.subrange(i, j)),
        simple_path(path@) && simple_path(root@) ==> shown@ == shown_relative(root@, path@),
{
    show_relative(root, path)
}

/// A directory relative to the notes root, with forward slashes.
pub fn relative_dir(root: &str, dir: &str) -> (shown: String)
    requires
        fits(dir@),
    ensures
        exists|i: int, j: int|
            0 <= i <= j <= dir@.len() && shown@ == forward_slashes(dir@.subrange(i, j)),
        simple_path(dir@) && simple_path(root@) ==> shown@ == shown_relative(root@, dir@),
{
    show_relative(root, dir)
}

/// Width of the notes panel from its setting: the number it holds, or 32.
pub open spec fn left_width_from(setting: Option<Seq<char>>) -> u16 {
    match setting {
        Some(v) => match parsed_u16(v) {
            Some(n) => n,
            None => 32,
        },
        None => 32,
    }
}

/// Width of the notes panel from its setting (`SN_LEFT_WIDTH`), 32 by default.
pub fn left_panel_width(setting: Option<&str>) -> (width: u16)
    ensures
        width == left_width_from(
            match setting {
                Some(v) => Some(v@),
                None => None,
            },
        ),
{
    match setting {
        Some(v) => match parse_u16(v) {
            Some(n) => n,
            None => 32,
        },
        None => 32,
    }
}

/// Directory of the notes: its setting (`SN_NOTES_DIR`) where there is one, else
/// `notes` under the working directory (or under `.` where that is unknown).
pub fn notes_dir(setting: Option<&str>, current_dir: Option<&str>) -> (dir: String)
    ensures
        setting matches Some(v) ==> dir@ == v@,
        setting is None ==> join_shape(
            match current_dir {
                Some(c) => c@,
                None => "."@,
            },
            "notes"@,
            dir@,
        ),
{
    match setting {
        Some(v) => String::from_str(v),
        None => {
            let base = match current_dir {
                Some(c) => c,
                None => ".",
            };
            proof {
                reveal_strlit("notes");
                reveal_strlit(".");
                reveal_strlit("..");
                assert("notes"@[0] == 'n');
            }
            path_join(base, "notes")
        },
    }
}

/// The notes among the browser entries, in order.
pub open spec fn notes_among(entries: Seq<BrowserEntry>) -> Seq<Note>
    decreases entries.len(),
{
    if entries.len() == 0 {
        Seq::empty()
    } else {
        match entries.last() {
            BrowserEntry::Note(n) => notes_among(entries.drop_last()).push(n),
            _ => notes_among(entries.drop_last()),
        }
    }
}

/// Keeps the notes of a listing, in order.
pub fn notes_of(entries: Vec<BrowserEntry>) -> (notes: Vec<Note>)
    ensures
        notes@ == notes_among(entries@),
{
    let ghost input = entries@;
    let mut rest = entries;
    let mut notes: Vec<Note> = Vec::new();
    proof {
        assert(input.take(0) =~= Seq::<BrowserEntry>::empty());
        assert(input.skip(0) =~= input);
    }
    while rest.len() > 0
        invariant
            rest@ == input.skip(input.len() - rest.len()),
            rest.len() <= input.len(),
            notes@ == notes_among(input.take(input.len() - rest.len())),
        decreases rest.len(),
    {
        let ghost n = input.len() - rest.len();
        let entry = rest.remove(0);
        proof {
            assert(entry == input[n]);
            assert(rest@ =~= input.skip(n + 1));
            let t = input.take(n + 1);
            assert(t.drop_last() =~= input.take(n));
            assert(t.last() == entry);
        }
        match entry {
            BrowserEntry::Note(note) => notes.push(note),
            _ => {},
        }
    }
    proof {
        assert(input.take(input.len() as int) =~= input);
    }
    notes
}

/// The name of a note from its file stem: the stem, or `untitled` without one.
pub fn name_from_stem(stem: Option<&str>) -> (name: String)
    ensures
        name@ == match stem {
            Some(t) => t@,
            None => "untitled"@,
        },
{
    match stem {
        Some(t) => String::from_str(t),
        None => String::from_str("untitled"),
    }
}

/// The name under which a note file is listed: its file stem, or `untitled`.
pub fn note_name(path: &str) -> (name: String)
    ensures
        name@ == "untitled"@ || exists|i: int, j: int|
            0 <= i <= j <= path@.len() && name@ == path@.subrange(i, j),
        plain_path(path@) ==> name@ == plain_stem(path@),
{
    let stem = path_file_stem(path);
    match stem {
        Some(t) => name_from_stem(Some(t.as_str())),
        None => name_from_stem(None),
    }
}

} // verus!
