//! File names of slash-separated paths.

use vstd::prelude::*;
use crate::text::chars_of;

verus! {

/// The characters of `path` that follow its last slash; all of `path` where
/// it holds no slash.
pub open spec fn last_segment(path: Seq<char>) -> Seq<char>
    decreases path.len(),
{
    if path.len() == 0 || path.last() == '/' {
        Seq::empty()
    } else {
        last_segment(path.drop_last()).push(path.last())
    }
}

/// The segment `.`, which names the directory it stands in.
pub open spec fn is_current_dir(segment: Seq<char>) -> bool {
    segment.len() == 1 && segment[0] == '.'
}

/// The segment `..`, which names the parent directory.
pub open spec fn is_parent_dir(segment: Seq<char>) -> bool {
    segment.len() == 2 && segment[0] == '.' && segment[1] == '.'
}

/// A name that stays inside the directory it is resolved in: not empty, free
/// of slashes, and neither `.` nor `..`.
pub open spec fn is_plain_name(name: Seq<char>) -> bool {
    &&& name.len() > 0
    &&& forall|i: int| 0 <= i < name.len() ==> name[i] != '/'
    &&& !is_current_dir(name)
    &&& !is_parent_dir(name)
}

/// `name` stands in `path` from position `start` on.
pub open spec fn occurs_at(path: Seq<char>, name: Seq<char>, start: int) -> bool {
    &&& 0 <= start
    &&& start + name.len() <= path.len()
    &&& path.subrange(start, start + name.len()) == name
}

/// The final component of a slash-separated path, if it has one.
///
/// Trailing slashes and trailing `.` segments are ignored. A path of which
/// nothing is left after that, or which then ends in a `..` segment, has no
/// file name.
pub open spec fn spec_file_name(path: Seq<char>) -> Option<Seq<char>>
    decreases path.len(),
{
    if path.len() == 0 {
        None
    } else if path.last() == '/' {
        spec_file_name(path.drop_last())
    } else {
        let segment = last_segment(path);
        if is_current_dir(segment) {
            spec_file_name(path.drop_last())
        } else if is_parent_dir(segment) {
            None
        } else {
            Some(segment)
        }
    }
}

/// The last segment of a path is a suffix of it, holds no slash, and is
/// preceded by a slash unless it is the whole path.
pub proof fn lemma_last_segment(path: Seq<char>)
    ensures
        last_segment(path).len() <= path.len(),
        last_segment(path) == path.subrange(
            path.len() - last_segment(path).len(),
            path.len() as int,
        ),
        forall|i: int| 0 <= i < last_segment(path).len() ==> last_segment(path)[i] != '/',
        last_segment(path).len() < path.len() ==> path[path.len() - last_segment(path).len() - 1]
            == '/',
    decreases path.len(),
{
    if path.len() == 0 || path.last() == '/' {
        assert(last_segment(path) =~= path.subrange(path.len() as int, path.len() as int));
    } else {
        let shorter = path.drop_last();
        lemma_last_segment(shorter);
        let segment = last_segment(path);
        assert(segment =~= path.subrange(path.len() - segment.len(), path.len() as int));
    }
}

/// A file name is a plain name, and it occurs in the path it was taken from.
pub proof fn lemma_file_name_is_plain(path: Seq<char>)
    ensures
        spec_file_name(path) is Some ==> is_plain_name(spec_file_name(path)->0),
        spec_file_name(path) is Some ==> exists|start: int|
            occurs_at(path, spec_file_name(path)->0, start),
    decreases path.len(),
{
    if path.len() == 0 {
    } else if path.last() == '/' || is_current_dir(last_segment(path)) {
        let shorter = path.drop_last();
        lemma_file_name_is_plain(shorter);
        assert(spec_file_name(path) == spec_file_name(shorter));
        if spec_file_name(shorter) is Some {
            let name = spec_file_name(shorter)->0;
            let start = choose|start: int| occurs_at(shorter, name, start);
            assert(path.subrange(start, start + name.len()) =~= shorter.subrange(
                start,
                start + name.len(),
            ));
            assert(occurs_at(path, spec_file_name(path)->0, start));
        }
    } else {
        lemma_last_segment(path);
        let segment = last_segment(path);
        if !is_current_dir(segment) && !is_parent_dir(segment) {
            assert(spec_file_name(path) == Some(segment));
            let start: int = path.len() - segment.len();
            assert(occurs_at(path, spec_file_name(path)->0, start));
        }
    }
}

/// A plain name is its own file name.
pub proof fn lemma_plain_name_is_file_name(name: Seq<char>)
    requires
        is_plain_name(name),
    ensures
        spec_file_name(name) == Some(name),
{
    lemma_segment_without_slash(name);
}

/// A sequence without a slash is its own last segment.
pub proof fn lemma_segment_without_slash(name: Seq<char>)
    requires
        forall|i: int| 0 <= i < name.len() ==> name[i] != '/',
    ensures
        last_segment(name) == name,
    decreases name.len(),
{
    if name.len() > 0 {
        lemma_segment_without_slash(name.drop_last());
        assert(name.drop_last().push(name.last()) =~= name);
    }
}

/// A run of slash-free characters that reaches to the end of the path, and
/// that starts at its head or behind a slash, is the last segment of the
/// path.
pub proof fn lemma_last_segment_from(path: Seq<char>, start: int)
    requires
        0 <= start <= path.len(),
        forall|i: int| start <= i < path.len() ==> path[i] != '/',
        start == 0 || path[start - 1] == '/',
    ensures
        last_segment(path) == path.subrange(start, path.len() as int),
    decreases path.len() - start,
{
    if start == path.len() {
        assert(path.subrange(start, path.len() as int) =~= Seq::<char>::empty());
    } else {
        let shorter = path.drop_last();
        lemma_last_segment_from(shorter, start);
        assert(shorter.subrange(start, shorter.len() as int).push(path.last())
            =~= path.subrange(start, path.len() as int));
    }
}

/// The file name of a path that ends in a slash and a plain name is that
/// name, whatever stands before the slash.
pub proof fn lemma_file_name_after_slash(dir: Seq<char>, name: Seq<char>)
    requires
        is_plain_name(name),
    ensures
        spec_file_name(dir.push('/') + name) == Some(name),
{
    let path = dir.push('/') + name;
    let start = dir.len() + 1;
    lemma_last_segment_from(path, start as int);
    assert(path.subrange(start as int, path.len() as int) =~= name);
}

/// The position at which the last segment of the first `end` characters
/// begins.
fn segment_start(chars: &Vec<char>, end: usize) -> (start: usize)
    requires
        end <= chars.len(),
    ensures
        start <= end,
        chars@.subrange(start as int, end as int) == last_segment(chars@.take(end as int)),
{
    let mut start: usize = end;
    while start > 0 && chars[start - 1] != '/'
        invariant
            start <= end <= chars.len(),
            forall|i: int| start <= i < end ==> chars@[i] != '/',
        decreases start,
    {
        start -= 1;
    }
    proof {
        let head = chars@.take(end as int);
        lemma_last_segment_from(head, start as int);
        assert(head.subrange(start as int, head.len() as int) =~= chars@.subrange(
            start as int,
            end as int,
        ));
    }
    start
}

/// Whether `name` is a plain name.
pub fn is_plain(name: &str) -> (plain: bool)
    ensures
        plain == is_plain_name(name@),
{
    let chars = chars_of(name);
    let n = chars.len();
    if n == 0 || (n == 1 && chars[0] == '.') || (n == 2 && chars[0] == '.' && chars[1] == '.') {
        return false;
    }
    for i in 0..n
        invariant
            n == chars.len(),
            chars@ == name@,
            forall|j: int| 0 <= j < i ==> chars@[j] != '/',
    {
        if chars[i] == '/' {
            return false;
        }
    }
    true
}

/// The final component of a slash-separated path, as [`spec_file_name`]
/// defines it.
pub fn file_name(path: &str) -> (name: Option<String>)
    ensures
        match name {
            Some(n) => spec_file_name(path@) == Some(n@),
            None => spec_file_name(path@) is None,
        },
{
    let chars = chars_of(path);
    let mut end: usize = chars.len();
    proof {
        assert(path@.take(end as int) =~= path@);
    }
    while end > 0
        invariant
            end <= chars.len(),
            chars@ == path@,
            spec_file_name(path@) == spec_file_name(path@.take(end as int)),
        decreases end,
    {
        let ghost head = path@.take(end as int);
        proof {
            assert(head.drop_last() =~= path@.take(end - 1));
        }
        if chars[end - 1] != '/' {
            let start = segment_start(&chars, end);
            let dots = end - start <= 2 && chars[start] == '.' && chars[end - 1] == '.';
            if !dots {
                let name = path.substring_char(start, end);
                return Some(String::from_str(name));
            }
            if end - start == 2 {
                return None;
            }
        }
        end -= 1;
    }
    None
}

} // verus!
