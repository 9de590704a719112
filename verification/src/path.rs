//! Paths as the server reads them: the final segment of a path, the run
//! marker in a directory's name, and the extension of a data file.

use vstd::prelude::*;
use vstd::std_specs::iter::IteratorSpec;

verus! {

broadcast use vstd::string::group_string_axioms;

/// What a run directory has in its name.
pub const RUN_MARKER: &'static str = "run_";

/// The extension of the instrument's binary data files.
pub const COMPASS_BINARY_EXT: &'static str = "BIN";

/// The characters of `text`, in order.
pub fn chars_of(text: &str) -> (chars: Vec<char>)
    ensures
        chars@ == text@,
{
    let mut chars: Vec<char> = Vec::new();
    let mut rest = text.chars();
    loop
        invariant
            chars@ + rest.remaining() == text@,
            rest.decrease() is Some,
        ensures
            chars@ == text@,
        decreases rest.decrease()->0,
    {
        match rest.next() {
            Some(c) => {
                chars.push(c);
            },
            None => {
                assert(chars@ + Seq::<char>::empty() =~= chars@);
                break ;
            },
        }
    }
    chars
}

/// The character that parts the segments of a path. Paths come in with
/// this separator, whatever the host writes them with: a host that parts
/// its paths otherwise converts them first.
pub const SEPARATOR: char = '/';

/// The segment that stands for the directory itself, and so names nothing.
pub const SAME_DIRECTORY: char = '.';

/// Whether the character before position `end` is passed over at the end of
/// a path: it is a separator, or a dot that is a segment of its own.
pub open spec fn passed_over(path: Seq<char>, end: nat) -> bool {
    &&& 0 < end <= path.len()
    &&& (path[end - 1] == SEPARATOR || (path[end - 1] == SAME_DIRECTORY && (end == 1 || path[end
        - 2] == SEPARATOR)))
}

/// Where the path ends once the separators and the `.` segments at its end
/// are left off, looking only at its first `end` characters.
pub open spec fn trimmed_end(path: Seq<char>, end: nat) -> nat
    decreases end,
{
    if passed_over(path, end) {
        trimmed_end(path, (end - 1) as nat)
    } else {
        end
    }
}

/// Where the segment begins that ends before position `end`: after the
/// nearest separator to the left, or at the start of the path.
pub open spec fn segment_start(path: Seq<char>, end: nat) -> nat
    decreases end,
{
    if end == 0 || end > path.len() || path[end - 1] == SEPARATOR {
        end
    } else {
        segment_start(path, (end - 1) as nat)
    }
}

/// The final segment of a path: the name of the file or directory that it
/// leads to, as `std::path::Path::file_name` reads it on a path parted by
/// `/`. Separators and `.` segments at the end of the path are left off, so
/// `a/b`, `a/b/` and `a/b/.` all have the final segment `b`. A path of
/// separators and `.` segments alone, and the empty path, have the empty
/// final segment. A path that ends in `..` names nothing either; its final
/// segment here is `..`, which is no run and no data file.
pub open spec fn final_segment(path: Seq<char>) -> Seq<char> {
    let end = trimmed_end(path, path.len());
    path.subrange(segment_start(path, end) as int, end as int)
}

/// Whether `needle` occurs in `hay` as a run of neighbouring characters.
pub open spec fn contains(hay: Seq<char>, needle: Seq<char>) -> bool {
    exists|at: int| occurs_at(hay, needle, at)
}

/// Whether `needle` stands in `hay` at position `at`.
pub open spec fn occurs_at(hay: Seq<char>, needle: Seq<char>, at: int) -> bool {
    &&& 0 <= at
    &&& at + needle.len() <= hay.len()
    &&& hay.subrange(at, at + needle.len()) == needle
}

/// Whether a file of this name has the extension `ext`: the name ends with
/// a dot and `ext`, and the dot is not its first character. For an `ext`
/// without a dot this is the extension as `std::path::Path` reads it.
pub open spec fn has_extension(name: Seq<char>, ext: Seq<char>) -> bool {
    &&& name.len() > ext.len() + 1
    &&& name[name.len() - ext.len() - 1] == '.'
    &&& name.subrange(name.len() - ext.len(), name.len() as int) == ext
}

/// Whether the path names a run directory: its final segment holds the run
/// marker. Nothing is asked of what the path leads to.
pub open spec fn names_run_dir(path: Seq<char>) -> bool {
    contains(final_segment(path), RUN_MARKER@)
}

/// Whether the path names a data file: its final segment has the binary
/// extension.
pub open spec fn names_data_file(path: Seq<char>) -> bool {
    has_extension(final_segment(path), COMPASS_BINARY_EXT@)
}

/// What the final segment is: a part of the path without a separator in
/// it, preceded by a separator or by nothing, and followed by separators
/// and `.` segments only. It is no `.` segment itself.
pub proof fn lemma_final_segment(path: Seq<char>)
    ensures
        ({
            let end = trimmed_end(path, path.len());
            let start = segment_start(path, end);
            &&& start <= end <= path.len()
            &&& final_segment(path) == path.subrange(start as int, end as int)
            &&& forall|i: int| start <= i < end ==> path[i] != SEPARATOR
            &&& forall|i: nat| end < i <= path.len() ==> #[trigger] passed_over(path, i)
            &&& forall|i: int|
                end <= i < path.len() && #[trigger] path[i] == SAME_DIRECTORY ==> i + 1
                    == path.len() || path[i + 1] == SEPARATOR
            &&& start > 0 ==> path[start - 1] == SEPARATOR
            &&& !passed_over(path, end)
        }),
{
    lemma_trimmed_end(path, path.len());
    lemma_segment_start(path, trimmed_end(path, path.len()));
}

proof fn lemma_trimmed_end(path: Seq<char>, end: nat)
    requires
        end <= path.len(),
    ensures
        trimmed_end(path, end) <= end,
        forall|i: nat| trimmed_end(path, end) < i <= end ==> #[trigger] passed_over(path, i),
        forall|i: int|
            trimmed_end(path, end) <= i < end && #[trigger] path[i] == SAME_DIRECTORY ==> i + 1
                == end || path[i + 1] == SEPARATOR,
        !passed_over(path, trimmed_end(path, end)),
    decreases end,
{
    if passed_over(path, end) {
        lemma_trimmed_end(path, (end - 1) as nat);
    }
}

proof fn lemma_segment_start(path: Seq<char>, end: nat)
    requires
        end <= path.len(),
    ensures
        segment_start(path, end) <= end,
        forall|i: int| segment_start(path, end) <= i < end ==> path[i] != SEPARATOR,
        segment_start(path, end) > 0 ==> path[segment_start(path, end) - 1] == SEPARATOR,
    decreases end,
{
    if !(end == 0 || path[end - 1] == SEPARATOR) {
        lemma_segment_start(path, (end - 1) as nat);
    }
}

/// The final segment of `path`, as characters.
pub fn final_segment_of(path: &str) -> (name: Vec<char>)
    ensures
        name@ == final_segment(path@),
{
    let mut chars = chars_of(path);
    let mut end: usize = chars.len();
    while end > 0 && (chars[end - 1] == SEPARATOR || (chars[end - 1] == SAME_DIRECTORY && (end
        == 1 || chars[end - 2] == SEPARATOR)))
        invariant
            end <= chars@.len(),
            trimmed_end(chars@, end as nat) == trimmed_end(chars@, chars@.len()),
        decreases end,
    {
        end = end - 1;
    }
    let mut start: usize = end;
    while start > 0 && chars[start - 1] != SEPARATOR
        invariant
            start <= end <= chars@.len(),
            segment_start(chars@, start as nat) == segment_start(chars@, end as nat),
        decreases start,
    {
        start = start - 1;
    }
    let ghost whole = chars@;
    chars.truncate(end);
    let name = chars.split_off(start);
    assert(name@ =~= whole.subrange(start as int, end as int));
    name
}

/// Whether `needle` stands in `hay` at position `at`.
fn stands_at(hay: &Vec<char>, needle: &Vec<char>, at: usize) -> (found: bool)
    requires
        at + needle@.len() <= hay@.len(),
    ensures
        found == occurs_at(hay@, needle@, at as int),
{
    let mut k: usize = 0;
    while k < needle.len()
        invariant
            k <= needle@.len(),
            at + needle@.len() <= hay.len(),
            forall|j: int| 0 <= j < k ==> hay@[at + j] == needle@[j],
        decreases needle@.len() - k,
    {
        if hay[at + k] != needle[k] {
            proof {
                let part = hay@.subrange(at as int, at + needle@.len());
                assert(part[k as int] != needle@[k as int]);
            }
            return false;
        }
        k = k + 1;
    }
    assert(hay@.subrange(at as int, at + needle@.len()) =~= needle@);
    true
}

/// Whether `needle` occurs in `hay`.
pub fn contains_chars(hay: &Vec<char>, needle: &Vec<char>) -> (found: bool)
    ensures
        found == contains(hay@, needle@),
{
    if needle.len() > hay.len() {
        return false;
    }
    let last: usize = hay.len() - needle.len();
    let mut at: usize = 0;
    loop
        invariant
            at <= last,
            last == hay@.len() - needle@.len(),
            forall|i: int| 0 <= i < at ==> !occurs_at(hay@, needle@, i),
        decreases last - at,
    {
        if stands_at(hay, needle, at) {
            return true;
        }
        if at == last {
            return false;
        }
        at = at + 1;
    }
}

/// Whether a file of this name has the extension `ext`.
pub fn has_extension_chars(name: &Vec<char>, ext: &Vec<char>) -> (found: bool)
    ensures
        found == has_extension(name@, ext@),
{
    if name.len() <= ext.len() || name.len() - ext.len() <= 1 {
        return false;
    }
    let at: usize = name.len() - ext.len();
    name[at - 1] == '.' && stands_at(name, ext, at)
}

/// Whether the path names one of the instrument's binary data files.
pub fn is_data_file(path: &str) -> (named: bool)
    ensures
        named == names_data_file(path@),
{
    let name = final_segment_of(path);
    let ext = chars_of(COMPASS_BINARY_EXT);
    has_extension_chars(&name, &ext)
}

} // verus!
