//! Paths as text: their last part, its extension, and their neighbours.
//!
//! Separators at the end and parts that are a single dot do not count, as in `std::path` on
//! Unix.

use vstd::prelude::*;

use crate::text::{chars_of, string_of};

verus! {

/// Where a path ends that has its first `end` characters, without separators and single dots at
/// the end.
pub open spec fn body_end(path: Seq<char>, end: int) -> int
    decreases end,
{
    if end <= 0 {
        0
    } else if path[end - 1] == '/' {
        body_end(path, end - 1)
    } else if path[end - 1] == '.' && end >= 2 && path[end - 2] == '/' {
        body_end(path, end - 1)
    } else {
        end
    }
}

/// Where the part starts that ends at `end`.
pub open spec fn part_start(path: Seq<char>, end: int) -> int
    decreases end,
{
    if end <= 0 {
        0
    } else if path[end - 1] == '/' {
        end
    } else {
        part_start(path, end - 1)
    }
}

/// Where the file name starts and ends, if there is one.
pub open spec fn file_name(path: Seq<char>) -> Option<(int, int)> {
    let end = body_end(path, path.len() as int);
    let start = part_start(path, end);
    let name = path.subrange(start, end);
    if start == end || name == seq!['.'] || name == seq!['.', '.'] {
        None
    } else {
        Some((start, end))
    }
}

/// The place of the last dot of the path's first `end` characters, not before `start`.
pub open spec fn last_dot(path: Seq<char>, start: int, end: int) -> Option<int>
    decreases end - start,
{
    if end <= start {
        None
    } else if path[end - 1] == '.' {
        Some(end - 1)
    } else {
        last_dot(path, start, end - 1)
    }
}

/// The path without the extension of its file name, where it has one. A dot at the start of a
/// file name starts no extension.
pub open spec fn without_extension(path: Seq<char>) -> Option<Seq<char>> {
    match file_name(path) {
        None => None,
        Some((start, end)) => match last_dot(path, start, end) {
            Some(dot) => if dot > start {
                Some(path.take(dot))
            } else {
                None
            },
            None => None,
        },
    }
}

/// The extension of the file name, if it has one.
pub open spec fn extension(path: Seq<char>) -> Option<Seq<char>> {
    match file_name(path) {
        None => None,
        Some((start, end)) => match last_dot(path, start, end) {
            Some(dot) => if dot > start {
                Some(path.subrange(dot + 1, end))
            } else {
                None
            },
            None => None,
        },
    }
}

proof fn lemma_body_end(path: Seq<char>, end: int)
    requires
        0 <= end <= path.len(),
    ensures
        0 <= body_end(path, end) <= end,
    decreases end,
{
    if end > 0 && (path[end - 1] == '/' || (path[end - 1] == '.' && end >= 2 && path[end - 2]
        == '/')) {
        lemma_body_end(path, end - 1);
    }
}

proof fn lemma_part_start(path: Seq<char>, end: int)
    requires
        0 <= end <= path.len(),
    ensures
        0 <= part_start(path, end) <= end,
    decreases end,
{
    if end > 0 && path[end - 1] != '/' {
        lemma_part_start(path, end - 1);
    }
}

proof fn lemma_last_dot(path: Seq<char>, start: int, end: int)
    requires
        0 <= start <= end <= path.len(),
    ensures
        last_dot(path, start, end) matches Some(dot) ==> start <= dot < end,
    decreases end - start,
{
    if start < end && path[end - 1] != '.' {
        lemma_last_dot(path, start, end - 1);
    }
}

/// A path without its extension is a shorter start of it.
pub proof fn lemma_without_extension(path: Seq<char>)
    ensures
        without_extension(path) matches Some(shorter) ==> shorter.len() < path.len() && shorter
            == path.take(shorter.len() as int),
        without_extension(path) is Some <==> extension(path) is Some,
{
    let end = body_end(path, path.len() as int);
    lemma_body_end(path, path.len() as int);
    lemma_part_start(path, end);
    lemma_last_dot(path, part_start(path, end), end);
}

fn find_body_end(path: &Vec<char>, from: usize) -> (r: usize)
    requires
        from <= path@.len(),
    ensures
        r == body_end(path@, from as int),
        r <= from,
{
    let mut end: usize = from;
    loop
        invariant
            end <= from <= path@.len(),
            body_end(path@, end as int) == body_end(path@, from as int),
        decreases end,
    {
        if end == 0 {
            return 0;
        }
        if path[end - 1] == '/' || (path[end - 1] == '.' && end >= 2 && path[end - 2] == '/') {
            end = end - 1;
        } else {
            return end;
        }
    }
}

fn find_part_start(path: &Vec<char>, from: usize) -> (r: usize)
    requires
        from <= path@.len(),
    ensures
        r == part_start(path@, from as int),
        r <= from,
{
    let mut end: usize = from;
    while end > 0 && path[end - 1] != '/'
        invariant
            end <= from <= path@.len(),
            part_start(path@, end as int) == part_start(path@, from as int),
        decreases end,
    {
        end = end - 1;
    }
    end
}

fn find_file_name(path: &Vec<char>) -> (r: Option<(usize, usize)>)
    ensures
        match r {
            Some((start, end)) => file_name(path@) == Some((start as int, end as int)) && start
                < end <= path@.len(),
            None => file_name(path@) is None,
        },
{
    let end: usize = find_body_end(path, path.len());
    let start: usize = find_part_start(path, end);
    let ghost name = path@.subrange(start as int, end as int);
    if start == end {
        return None;
    }
    if end - start == 1 && path[start] == '.' {
        assert(name =~= seq!['.']);
        return None;
    }
    if end - start == 2 && path[start] == '.' && path[start + 1] == '.' {
        assert(name =~= seq!['.', '.']);
        return None;
    }
    proof {
        if name == seq!['.'] {
            assert(name[0] == '.' && name.len() == 1);
        }
        if name == seq!['.', '.'] {
            assert(name[0] == '.' && name[1] == '.' && name.len() == 2);
        }
    }
    Some((start, end))
}

fn find_last_dot(path: &Vec<char>, start: usize, from: usize) -> (r: Option<usize>)
    requires
        start <= from <= path@.len(),
    ensures
        match r {
            Some(dot) => last_dot(path@, start as int, from as int) == Some(dot as int) && start
                <= dot < from,
            None => last_dot(path@, start as int, from as int) is None,
        },
{
    let mut end: usize = from;
    while end > start
        invariant
            start <= end <= from <= path@.len(),
            last_dot(path@, start as int, end as int) == last_dot(
                path@,
                start as int,
                from as int,
            ),
        decreases end,
    {
        if path[end - 1] == '.' {
            return Some(end - 1);
        }
        end = end - 1;
    }
    None
}

/// The file name, if there is one.
pub open spec fn last_part(path: Seq<char>) -> Option<Seq<char>> {
    match file_name(path) {
        Some((start, end)) => Some(path.subrange(start, end)),
        None => None,
    }
}

/// The file name, if there is one.
pub fn file_name_of(path: &str) -> (r: Option<String>)
    ensures
        match last_part(path@) {
            Some(name) => r is Some && r->0@ == name,
            None => r is None,
        },
{
    let chars = chars_of(path);
    match find_file_name(&chars) {
        Some((start, end)) => Some(string_of(&chars, start, end)),
        None => None,
    }
}

/// The path without the extension of its file name, where it has one.
pub fn strip_extension(path: &str) -> (r: Option<String>)
    ensures
        match without_extension(path@) {
            Some(shorter) => r is Some && r->0@ == shorter,
            None => r is None,
        },
{
    let chars = chars_of(path);
    match find_file_name(&chars) {
        None => None,
        Some((start, end)) => match find_last_dot(&chars, start, end) {
            Some(dot) => if dot > start {
                let r = string_of(&chars, 0, dot);
                assert(chars@.subrange(0, dot as int) =~= chars@.take(dot as int));
                Some(r)
            } else {
                None
            },
            None => None,
        },
    }
}

/// The extension of the file name, if it has one.
pub fn extension_of(path: &str) -> (r: Option<String>)
    ensures
        match extension(path@) {
            Some(extension) => r is Some && r->0@ == extension,
            None => r is None,
        },
{
    let chars = chars_of(path);
    match find_file_name(&chars) {
        None => None,
        Some((start, end)) => match find_last_dot(&chars, start, end) {
            Some(dot) => if dot > start {
                Some(string_of(&chars, dot + 1, end))
            } else {
                None
            },
            None => None,
        },
    }
}

/// The path that a part is in whose file name starts at `start`.
pub open spec fn parent_at(path: Seq<char>, start: int) -> Seq<char> {
    let end = body_end(path, start);
    if end == 0 && start > 0 {
        seq!['/']
    } else {
        path.take(end)
    }
}

/// A path inside of another. One that starts with a separator stands for itself.
pub open spec fn joined(path: Seq<char>, name: Seq<char>) -> Seq<char> {
    if name.len() > 0 && name[0] == '/' {
        name
    } else if path.len() == 0 || path.last() == '/' {
        path + name
    } else {
        path.push('/') + name
    }
}

/// The path with another file name.
pub open spec fn renamed(path: Seq<char>, name: Seq<char>) -> Seq<char> {
    match file_name(path) {
        Some((start, end)) => joined(parent_at(path, start), name),
        None => joined(path, name),
    }
}

/// A path inside of another.
pub fn join(path: &str, name: &str) -> (r: String)
    ensures
        r@ == joined(path@, name@),
{
    let name_chars = chars_of(name);
    if name_chars.len() > 0 && name_chars[0] == '/' {
        return name.to_owned();
    }
    let mut r = path.to_owned();
    let chars = chars_of(path);
    let n: usize = chars.len();
    if n > 0 && chars[n - 1] != '/' {
        r.push('/');
    }
    r.append(name);
    r
}

/// The path with another file name.
pub fn with_file_name(path: &str, name: &str) -> (r: String)
    ensures
        r@ == renamed(path@, name@),
{
    let chars = chars_of(path);
    let parent = match find_file_name(&chars) {
        Some((start, end)) => {
            let parent_end: usize = find_body_end(&chars, start);
            if parent_end == 0 && start > 0 {
                let mut root = "".to_owned();
                root.push('/');
                proof {
                    reveal_strlit("");
                    assert(root@ =~= seq!['/']);
                }
                root
            } else {
                let parent = string_of(&chars, 0, parent_end);
                assert(parent@ =~= chars@.take(parent_end as int));
                parent
            }
        },
        None => path.to_owned(),
    };
    join(parent.as_str(), name)
}

proof fn lemma_part_starts_at(path: Seq<char>, start: int, end: int)
    requires
        0 <= start <= end <= path.len(),
        start > 0 ==> path[start - 1] == '/',
        forall|i: int| start <= i < end ==> path[i] != '/',
    ensures
        part_start(path, end) == start,
    decreases end,
{
    if end > start {
        lemma_part_starts_at(path, start, end - 1);
    }
}

proof fn lemma_last_dot_is_at(path: Seq<char>, start: int, end: int, dot: int)
    requires
        0 <= start <= end <= path.len(),
        forall|i: int| dot < i < end ==> path[i] != '.',
        start <= dot < end ==> path[dot] == '.',
        dot < end,
    ensures
        dot >= start ==> last_dot(path, start, end) == Some(dot),
        dot < start ==> last_dot(path, start, end) is None,
    decreases end - start,
{
    if end > start && path[end - 1] != '.' {
        lemma_last_dot_is_at(path, start, end - 1, dot);
    }
}

/// The last part of a path is what follows its last separator.
pub proof fn law_last_part_follows_separator(dir: Seq<char>, name: Seq<char>)
    requires
        dir.len() > 0 ==> dir.last() == '/',
        name.len() > 0,
        !name.contains('/'),
        name != seq!['.'],
        name != seq!['.', '.'],
    ensures
        file_name(dir + name) == Some((dir.len() as int, (dir + name).len() as int)),
        last_part(dir + name) == Some(name),
{
    let path = dir + name;
    let start = dir.len() as int;
    let end = path.len() as int;
    assert forall|i: int| start <= i < end implies path[i] != '/' by {
        assert(path[i] == name[i - start]);
    }
    if dir.len() > 0 {
        assert(path[start - 1] == dir.last());
    }
    if name.len() == 1 {
        assert(name =~= seq![name[0]]);
        assert(path[end - 1] == name[0]);
    } else {
        assert(path[end - 2] == name[name.len() - 2]);
    }
    assert(body_end(path, end) == end);
    lemma_part_starts_at(path, start, end);
    assert(path.subrange(start, end) =~= name);
}

/// The extension is what follows the last dot of the last part; without it the path keeps all that
/// stands before that dot.
pub proof fn law_extension_follows_last_dot(dir: Seq<char>, stem: Seq<char>, tail: Seq<char>)
    requires
        dir.len() > 0 ==> dir.last() == '/',
        stem.len() > 0,
        !stem.contains('/'),
        !tail.contains('/'),
        !tail.contains('.'),
        stem != seq!['.'] || tail.len() > 0,
    ensures
        extension(dir + stem + seq!['.'] + tail) == Some(tail),
        without_extension(dir + stem + seq!['.'] + tail) == Some(dir + stem),
{
    let name = stem + seq!['.'] + tail;
    let path = dir + stem + seq!['.'] + tail;
    let dot = (dir.len() + stem.len()) as int;
    assert(path =~= dir + name);
    assert(!name.contains('/')) by {
        if name.contains('/') {
            let i = choose|i: int| 0 <= i < name.len() && name[i] == '/';
            if i < stem.len() {
                assert(stem[i] == '/');
            } else if i > stem.len() {
                assert(tail[i - stem.len() - 1] == '/');
            }
        }
    }
    assert(name.len() >= 2);
    if name == seq!['.', '.'] {
        assert(name.len() == 2);
        assert(stem.len() == 1 && stem[0] == name[0]);
        assert(stem =~= seq!['.']);
    }
    law_last_part_follows_separator(dir, name);
    assert forall|i: int| dot < i < path.len() implies path[i] != '.' by {
        assert(path[i] == tail[i - dot - 1]);
    }
    assert(path[dot] == '.');
    lemma_last_dot_is_at(path, dir.len() as int, path.len() as int, dot);
    assert(path.take(dot) =~= dir + stem);
    assert(path.subrange(dot + 1, path.len() as int) =~= tail);
}

/// A name without a dot, or with one only in front, has no extension.
pub proof fn law_no_extension_without_dot(dir: Seq<char>, name: Seq<char>)
    requires
        dir.len() > 0 ==> dir.last() == '/',
        name.len() > 0,
        !name.contains('/'),
        name != seq!['.'],
        !name.skip(1).contains('.'),
    ensures
        extension(dir + name) is None,
        without_extension(dir + name) is None,
{
    let path = dir + name;
    let start = dir.len() as int;
    if name == seq!['.', '.'] {
        assert(name.skip(1)[0] == '.');
    }
    law_last_part_follows_separator(dir, name);
    assert forall|i: int| start < i < path.len() implies path[i] != '.' by {
        assert(path[i] == name.skip(1)[i - start - 1]);
    }
    if name[0] == '.' {
        lemma_last_dot_is_at(path, start, path.len() as int, start);
    } else {
        assert(path[start] == name[0]);
        lemma_last_dot_is_at(path, start, path.len() as int, start - 1);
    }
}

/// Another name takes the place of the last part, in the same directory.
pub proof fn law_new_name_is_beside_old(dir: Seq<char>, old_name: Seq<char>, name: Seq<char>)
    requires
        old_name.len() > 0,
        !old_name.contains('/'),
        old_name != seq!['.'],
        old_name != seq!['.', '.'],
        name.len() > 0,
        name[0] != '/',
    ensures
        renamed(old_name, name) == name,
        dir.len() > 0 && dir.last() != '/' && !(dir.len() >= 2 && dir.last() == '.' && dir[dir.len()
            - 2] == '/') ==> renamed(dir + seq!['/'] + old_name, name) == dir + seq!['/'] + name,
        renamed(seq!['/'] + old_name, name) == seq!['/'] + name,
{
    let none = Seq::<char>::empty();
    law_last_part_follows_separator(none, old_name);
    assert(none + old_name =~= old_name);
    assert(parent_at(old_name, 0) =~= none);
    assert(none + name =~= name);
    let root = seq!['/'];
    law_last_part_follows_separator(root, old_name);
    reveal_with_fuel(body_end, 2);
    assert((root + old_name)[0] == '/');
    assert(parent_at(root + old_name, 1) =~= root);
    assert(root.last() == '/');
    if dir.len() > 0 && dir.last() != '/' && !(dir.len() >= 2 && dir.last() == '.' && dir[dir.len()
        - 2] == '/') {
        let up = dir + seq!['/'];
        let path = up + old_name;
        law_last_part_follows_separator(up, old_name);
        assert(path[up.len() - 1] == '/');
        assert(path[dir.len() - 1] == dir.last());
        if dir.len() >= 2 {
            assert(path[dir.len() - 2] == dir[dir.len() - 2]);
        }
        assert(body_end(path, dir.len() as int) == dir.len());
        assert(parent_at(path, up.len() as int) =~= dir);
        assert(dir.push('/') =~= up);
    }
}

/// A name is put below a directory with one separator between the two; one that starts with a
/// separator stands for itself.
pub proof fn law_names_below_directories(dir: Seq<char>, name: Seq<char>)
    ensures
        name.len() > 0 && name[0] == '/' ==> joined(dir, name) == name,
        (name.len() == 0 || name[0] != '/') && dir.len() > 0 && dir.last() != '/' ==> joined(
            dir,
            name,
        ) == dir + seq!['/'] + name && joined(dir + seq!['/'], name) == dir + seq!['/'] + name,
        joined(Seq::empty(), name) == name,
{
    assert(dir.push('/') =~= dir + seq!['/']);
    assert((dir + seq!['/']).last() == '/');
    assert(Seq::<char>::empty() + name =~= name);
}

} // verus!
