//! Path classifier: which entries are hidden, and which paths name markdown
//! documents.
//!
//! A path is read as components separated by `/`. Its file name is the last
//! component once trailing separators and `.` components are set aside; a
//! path that ends in `..` has none. The extension is what follows the last
//! dot of the file name, provided that dot is not the name's first character.

use vstd::prelude::*;
use crate::text::{ascii_lower, chars_of, same_ignoring_ascii_case, to_ascii_lower};

verus! {

/// An entry name is hidden when it starts with a dot.
pub open spec fn hidden_name(name: Seq<char>) -> bool {
    name.len() > 0 && name[0] == '.'
}

/// A component of the path begins at `i` with a dot: at the front of the path
/// or just behind a separator.
pub open spec fn hidden_component_at(path: Seq<char>, i: int) -> bool {
    &&& 0 <= i < path.len()
    &&& path[i] == '.'
    &&& (i == 0 || path[i - 1] == '/')
}

/// A path is hidden when one of its components is a hidden name.
pub open spec fn hidden_path(path: Seq<char>) -> bool {
    exists|i: int| hidden_component_at(path, i)
}

/// Whatever component one cuts out of a path that is not hidden, its name is
/// not hidden: neither the entry's own name nor that of a directory above it.
pub proof fn lemma_visible_components(path: Seq<char>, start: int, end: int)
    requires
        !hidden_path(path),
        0 <= start <= end <= path.len(),
        start == 0 || path[start - 1] == '/',
    ensures
        !hidden_name(path.subrange(start, end)),
{
    if hidden_name(path.subrange(start, end)) {
        assert(hidden_component_at(path, start));
    }
}

/// A path with a component whose name is hidden is a hidden path.
pub proof fn lemma_hidden_component(path: Seq<char>, start: int, end: int)
    requires
        0 <= start <= end <= path.len(),
        start == 0 || path[start - 1] == '/',
        hidden_name(path.subrange(start, end)),
    ensures
        hidden_path(path),
{
    assert(hidden_component_at(path, start));
}

/// The length that is left of a path once trailing separators and trailing
/// `.` components are dropped.
pub open spec fn trimmed_len(path: Seq<char>) -> nat
    decreases path.len(),
{
    if path.len() == 0 {
        0
    } else if path.last() == '/' {
        trimmed_len(path.drop_last())
    } else if path.last() == '.' && (path.len() == 1 || path[path.len() - 2] == '/') {
        trimmed_len(path.drop_last())
    } else {
        path.len()
    }
}

/// Where the component that ends before `end` begins: just behind the last
/// separator in front of `end`, or at 0.
pub open spec fn component_start(path: Seq<char>, end: int) -> int
    decreases end,
{
    if end <= 0 {
        0
    } else if path[end - 1] == '/' {
        end
    } else {
        component_start(path, end - 1)
    }
}

/// The file name of a path, if it has one.
pub open spec fn file_name(path: Seq<char>) -> Option<Seq<char>> {
    let end = trimmed_len(path) as int;
    let name = path.subrange(component_start(path, end), end);
    if name.len() == 0 || name == seq!['.', '.'] {
        None
    } else {
        Some(name)
    }
}

/// The name under which a walk knows the entry at this path: its file name,
/// or the whole path where it has none.
pub open spec fn entry_name(path: Seq<char>) -> Seq<char> {
    match file_name(path) {
        Some(name) => name,
        None => path,
    }
}

/// The index of the last dot in a name, or -1 where it has none.
pub open spec fn last_dot(name: Seq<char>) -> int
    decreases name.len(),
{
    if name.len() == 0 {
        -1
    } else if name.last() == '.' {
        name.len() - 1
    } else {
        last_dot(name.drop_last())
    }
}

/// The extension of a path, without its dot, if it has one.
pub open spec fn extension(path: Seq<char>) -> Option<Seq<char>> {
    match file_name(path) {
        None => None,
        Some(name) => {
            let dot = last_dot(name);
            if dot <= 0 {
                None
            } else {
                Some(name.subrange(dot + 1, name.len() as int))
            }
        },
    }
}

/// The extensions of markdown documents: `md`, `markdown` and `mdx`, in any
/// mix of upper and lower case.
pub open spec fn markdown_extension(ext: Seq<char>) -> bool {
    ||| same_ignoring_ascii_case(ext, seq!['m', 'd'])
    ||| same_ignoring_ascii_case(ext, seq!['m', 'a', 'r', 'k', 'd', 'o', 'w', 'n'])
    ||| same_ignoring_ascii_case(ext, seq!['m', 'd', 'x'])
}

/// A path names a markdown document when it has a markdown extension.
pub open spec fn markdown_path(path: Seq<char>) -> bool {
    extension(path) matches Some(ext) && markdown_extension(ext)
}

/// What is left of a path by [`trimmed_len`] does not end in a separator, and
/// what was dropped holds separators and dots alone.
pub proof fn lemma_trimmed_len(path: Seq<char>)
    ensures
        trimmed_len(path) <= path.len(),
        trimmed_len(path) > 0 ==> path[trimmed_len(path) - 1] != '/',
        forall|i: int|
            trimmed_len(path) <= i < path.len() ==> #[trigger] path[i] == '/' || path[i] == '.',
    decreases path.len(),
{
    if path.len() > 0 && (path.last() == '/' || (path.last() == '.' && (path.len() == 1
        || path[path.len() - 2] == '/'))) {
        let front = path.drop_last();
        lemma_trimmed_len(front);
        assert forall|i: int| trimmed_len(path) <= i < path.len() implies #[trigger] path[i] == '/'
            || path[i] == '.' by {
            if i < front.len() {
                assert(path[i] == front[i]);
            }
        }
        if trimmed_len(path) > 0 {
            assert(path[trimmed_len(path) - 1] == front[trimmed_len(front) - 1]);
        }
    }
}

/// A component starts at the front of the path or behind a separator, and
/// holds no separator.
pub proof fn lemma_component_start(path: Seq<char>, end: int)
    requires
        0 <= end <= path.len(),
    ensures
        0 <= component_start(path, end) <= end,
        component_start(path, end) > 0 ==> path[component_start(path, end) - 1] == '/',
        forall|i: int| component_start(path, end) <= i < end ==> #[trigger] path[i] != '/',
    decreases end,
{
    if end > 0 && path[end - 1] != '/' {
        lemma_component_start(path, end - 1);
    }
}

/// [`last_dot`] finds a dot behind which the name has no other, or finds
/// none where the name has none.
pub proof fn lemma_last_dot(name: Seq<char>)
    ensures
        -1 <= last_dot(name) < name.len(),
        last_dot(name) >= 0 ==> name[last_dot(name)] == '.',
        forall|i: int| last_dot(name) < i < name.len() ==> #[trigger] name[i] != '.',
    decreases name.len(),
{
    if name.len() > 0 && name.last() != '.' {
        let front = name.drop_last();
        lemma_last_dot(front);
        assert forall|i: int| last_dot(name) < i < name.len() implies #[trigger] name[i] != '.' by {
            if i < front.len() {
                assert(name[i] == front[i]);
            }
        }
    }
}

/// A path that ends in neither a separator nor a dot is a markdown path
/// exactly when it ends in a dot and a markdown extension, and that dot does
/// not begin a component.
pub proof fn lemma_markdown_by_ending(path: Seq<char>)
    requires
        path.len() > 0,
        path.last() != '/',
        path.last() != '.',
    ensures
        markdown_path(path) <==> exists|n: int|
            {
                &&& 0 < n && n + 2 <= path.len()
                &&& #[trigger] markdown_extension(path.subrange(path.len() - n, path.len() as int))
                &&& path[path.len() - n - 1] == '.'
                &&& path[path.len() - n - 2] != '/'
            },
{
    let len = path.len() as int;
    let start = component_start(path, len);
    let name = path.subrange(start, len);
    lemma_component_start(path, len);
    lemma_last_dot(name);
    assert(name.len() > 0);
    assert(name != seq!['.', '.']) by {
        if name == seq!['.', '.'] {
            assert(name[1] == '.');
            assert(name[1] == path.last());
        }
    }
    assert(file_name(path) == Some(name));
    let dot = last_dot(name);
    if markdown_path(path) {
        let ext = name.subrange(dot + 1, name.len() as int);
        let n = ext.len() as int;
        assert(ext.len() > 0) by {
            if ext.len() == 0 {
                assert(!same_ignoring_ascii_case(ext, seq!['m', 'd']));
            }
        }
        assert(ext == path.subrange(len - n, len));
        assert(path[len - n - 1] == name[dot]);
        assert(path[len - n - 2] == name[dot - 1]);
    }
    if exists|n: int|
        {
            &&& 0 < n && n + 2 <= path.len()
            &&& #[trigger] markdown_extension(path.subrange(path.len() - n, path.len() as int))
            &&& path[path.len() - n - 1] == '.'
            &&& path[path.len() - n - 2] != '/'
        } {
        let n = choose|n: int|
            {
                &&& 0 < n && n + 2 <= path.len()
                &&& #[trigger] markdown_extension(path.subrange(path.len() - n, path.len() as int))
                &&& path[path.len() - n - 1] == '.'
                &&& path[path.len() - n - 2] != '/'
            };
        let ext = path.subrange(len - n, len);
        lemma_markdown_extension_is_plain(ext);
        // the component holds the extension, its dot and the character in front
        assert(start <= len - n - 2) by {
            if start > len - n - 2 {
                assert(path[start - 1] == '/');
                if start - 1 >= len - n {
                    assert(ext[start - 1 - (len - n)] == path[start - 1]);
                }
            }
        }
        assert(dot == len - n - 1 - start) by {
            assert(name[len - n - 1 - start] == '.');
            if dot > len - n - 1 - start {
                assert(name[dot] == ext[dot + start - (len - n)]);
            }
        }
        assert(name.subrange(dot + 1, name.len() as int) == ext);
    }
}

/// A markdown extension holds letters alone: no dot and no separator.
pub proof fn lemma_markdown_extension_is_plain(ext: Seq<char>)
    requires
        markdown_extension(ext),
    ensures
        ext.len() == 2 || ext.len() == 3 || ext.len() == 8,
        forall|i: int| 0 <= i < ext.len() ==> #[trigger] ext[i] != '.' && ext[i] != '/',
{
    let md = seq!['m', 'd'];
    let markdown = seq!['m', 'a', 'r', 'k', 'd', 'o', 'w', 'n'];
    let mdx = seq!['m', 'd', 'x'];
    assert forall|i: int| 0 <= i < ext.len() implies #[trigger] ext[i] != '.' && ext[i] != '/' by {
        if same_ignoring_ascii_case(ext, md) {
            assert(ascii_lower(ext[i]) == ascii_lower(md[i]));
        } else if same_ignoring_ascii_case(ext, markdown) {
            assert(ascii_lower(ext[i]) == ascii_lower(markdown[i]));
        } else {
            assert(ascii_lower(ext[i]) == ascii_lower(mdx[i]));
        }
    }
}

/// Whether the entry with this base name is hidden. A walk of a vault leaves
/// such an entry out, and does not descend into it where it is a directory.
pub fn is_hidden(name: &str) -> (hidden: bool)
    ensures
        hidden == hidden_name(name@),
{
    !name.is_empty() && name.get_char(0) == '.'
}

/// Whether the entry at this path goes by a hidden name.
pub fn has_hidden_name(path: &str) -> (hidden: bool)
    ensures
        hidden == hidden_name(entry_name(path@)),
{
    let chars = chars_of(path);
    let end = trimmed_end(&chars);
    let start = component_begin(&chars, end);
    let ghost name = chars@.subrange(start as int, end as int);
    let no_name = start == end || (end - start == 2 && chars[start] == '.' && chars[start + 1]
        == '.');
    proof {
        if name == seq!['.', '.'] {
            assert(name.len() == 2 && name[0] == '.' && name[1] == '.');
        }
        if no_name && start != end {
            assert(name == seq!['.', '.']);
        }
    }
    if no_name {
        chars.len() > 0 && chars[0] == '.'
    } else {
        assert(name[0] == chars@[start as int]);
        chars[start] == '.'
    }
}

/// Whether one of the path's components is hidden.
pub fn is_hidden_path(path: &str) -> (hidden: bool)
    ensures
        hidden == hidden_path(path@),
{
    let chars = chars_of(path);
    let mut i: usize = 0;
    while i < chars.len()
        invariant
            i <= chars.len(),
            chars@ == path@,
            forall|j: int| 0 <= j < i ==> !hidden_component_at(path@, j),
        decreases chars.len() - i,
    {
        if chars[i] == '.' && (i == 0 || chars[i - 1] == '/') {
            assert(hidden_component_at(path@, i as int));
            return true;
        }
        i += 1;
    }
    false
}

fn trimmed_end(path: &Vec<char>) -> (end: usize)
    ensures
        end == trimmed_len(path@),
        end <= path.len(),
{
    let mut end: usize = path.len();
    assert(path@.take(end as int) == path@);
    while end > 0 && (path[end - 1] == '/' || (path[end - 1] == '.' && (end == 1 || path[end - 2]
        == '/')))
        invariant
            end <= path.len(),
            trimmed_len(path@) == trimmed_len(path@.take(end as int)),
        decreases end,
    {
        assert(path@.take(end as int).drop_last() == path@.take(end - 1));
        end -= 1;
    }
    end
}

fn component_begin(path: &Vec<char>, end: usize) -> (start: usize)
    requires
        end <= path.len(),
    ensures
        start == component_start(path@, end as int),
        start <= end,
{
    let mut start: usize = end;
    while start > 0 && path[start - 1] != '/'
        invariant
            start <= end <= path.len(),
            component_start(path@, end as int) == component_start(path@, start as int),
        decreases start,
    {
        start -= 1;
    }
    start
}

fn find_last_dot(path: &Vec<char>, start: usize, end: usize) -> (dot: Option<usize>)
    requires
        start <= end <= path.len(),
    ensures
        match dot {
            Some(i) => start <= i < end && last_dot(path@.subrange(start as int, end as int)) == i
                - start,
            None => last_dot(path@.subrange(start as int, end as int)) == -1,
        },
{
    let mut at: usize = end;
    while at > start && path[at - 1] != '.'
        invariant
            start <= at <= end <= path.len(),
            last_dot(path@.subrange(start as int, end as int)) == last_dot(
                path@.subrange(start as int, at as int),
            ),
        decreases at,
    {
        assert(path@.subrange(start as int, at as int).drop_last() == path@.subrange(
            start as int,
            at - 1,
        ));
        at -= 1;
    }
    if at > start {
        Some(at - 1)
    } else {
        None
    }
}

fn range_is_word(path: &Vec<char>, from: usize, end: usize, word: &Vec<char>) -> (same: bool)
    requires
        from <= end <= path.len(),
    ensures
        same == same_ignoring_ascii_case(path@.subrange(from as int, end as int), word@),
{
    if end - from != word.len() {
        return false;
    }
    let ghost ext = path@.subrange(from as int, end as int);
    let mut i: usize = 0;
    while i < word.len()
        invariant
            from <= end <= path.len(),
            end - from == word.len(),
            i <= word.len(),
            ext == path@.subrange(from as int, end as int),
            forall|j: int| 0 <= j < i ==> ascii_lower(#[trigger] ext[j]) == ascii_lower(word@[j]),
        decreases word.len() - i,
    {
        if to_ascii_lower(path[from + i]) != to_ascii_lower(word[i]) {
            assert(ascii_lower(ext[i as int]) != ascii_lower(word@[i as int]));
            return false;
        }
        i += 1;
    }
    true
}

/// Whether the path has one of the markdown extensions.
pub fn is_markdown(path: &str) -> (markdown: bool)
    ensures
        markdown == markdown_path(path@),
{
    let chars = chars_of(path);
    let end = trimmed_end(&chars);
    let start = component_begin(&chars, end);
    if start == end {
        return false;
    }
    if end - start == 2 && chars[start] == '.' && chars[start + 1] == '.' {
        assert(chars@.subrange(start as int, end as int) == seq!['.', '.']);
        return false;
    }
    assert(chars@.subrange(start as int, end as int) != seq!['.', '.']) by {
        let name = chars@.subrange(start as int, end as int);
        if name == seq!['.', '.'] {
            assert(name.len() == 2);
            assert(name[0] == '.' && name[1] == '.');
        }
    }
    match find_last_dot(&chars, start, end) {
        None => false,
        Some(dot) => {
            if dot == start {
                false
            } else {
                let ghost name = chars@.subrange(start as int, end as int);
                assert(name.subrange(dot - start + 1, name.len() as int) == chars@.subrange(
                    dot + 1,
                    end as int,
                ));
                let md = vec!['m', 'd'];
                let markdown = vec!['m', 'a', 'r', 'k', 'd', 'o', 'w', 'n'];
                let mdx = vec!['m', 'd', 'x'];
                range_is_word(&chars, dot + 1, end, &md) || range_is_word(
                    &chars,
                    dot + 1,
                    end,
                    &markdown,
                ) || range_is_word(&chars, dot + 1, end, &mdx)
            }
        },
    }
}

} // verus!
