//! Paths inside an archive: bytes, with `/` between their components.

use vstd::prelude::*;

verus! {

/// The byte that parts the components of a path.
pub const SEPARATOR: u8 = 0x2f;

/// The byte before an extension, and the component that names a directory
/// itself.
pub const DOT: u8 = 0x2e;

/// Where the last component of `path` begins: behind its last separator, or
/// at the start where it has none.
pub open spec fn last_component_start(path: Seq<u8>) -> int
    decreases path.len(),
{
    if path.len() == 0 {
        0
    } else if path.last() == SEPARATOR {
        path.len() as int
    } else {
        last_component_start(path.drop_last())
    }
}

/// The bytes behind the last separator of `path`; all of it where it has
/// none.
pub open spec fn last_component(path: Seq<u8>) -> Seq<u8> {
    path.skip(last_component_start(path))
}

/// The file name of a path: its last component, where empty components and
/// `.` do not count. A path without such a component, or whose last one is
/// `..`, has none.
pub open spec fn file_name(path: Seq<u8>) -> Option<Seq<u8>>
    decreases path.len(),
{
    if path.len() == 0 {
        None
    } else if last_component(path).len() == 0 || last_component(path) == seq![DOT] {
        file_name(path.drop_last())
    } else if last_component(path) == seq![DOT, DOT] {
        None
    } else {
        Some(last_component(path))
    }
}

/// The place of the last `.` in `name`, or -1 where it has none.
pub open spec fn last_dot(name: Seq<u8>) -> int
    decreases name.len(),
{
    if name.len() == 0 {
        -1
    } else if name.last() == DOT {
        name.len() - 1
    } else {
        last_dot(name.drop_last())
    }
}

/// The extension of a file name: what follows its last `.`, unless that is
/// the first byte of the name.
pub open spec fn extension(name: Seq<u8>) -> Option<Seq<u8>> {
    if last_dot(name) <= 0 {
        None
    } else {
        Some(name.skip(last_dot(name) + 1))
    }
}

/// The extension `otf`.
pub open spec fn otf() -> Seq<u8> {
    seq![0x6fu8, 0x74u8, 0x66u8]
}

/// The extension `ttf`.
pub open spec fn ttf() -> Seq<u8> {
    seq![0x74u8, 0x74u8, 0x66u8]
}

/// Whether a file name is that of a font: its extension is `otf` or `ttf`,
/// in lower case.
pub open spec fn is_font_name(name: Seq<u8>) -> bool {
    extension(name) == Some(otf()) || extension(name) == Some(ttf())
}

/// The start of the last component lies within the path, behind a
/// separator or at the start, and no separator follows it.
pub proof fn lemma_last_component_start(path: Seq<u8>)
    ensures
        0 <= last_component_start(path) <= path.len(),
        last_component_start(path) > 0 ==> path[last_component_start(path) - 1] == SEPARATOR,
        forall|i: int| last_component_start(path) <= i < path.len() ==> path[i] != SEPARATOR,
    decreases path.len(),
{
    if path.len() > 0 && path.last() != SEPARATOR {
        let head = path.drop_last();
        lemma_last_component_start(head);
        assert forall|i: int| last_component_start(path) <= i < path.len() implies path[i]
            != SEPARATOR by {
            if i < head.len() {
                assert(head[i] == path[i]);
            }
        }
    }
}

/// The last `.` lies within the name, and no `.` follows it.
pub proof fn lemma_last_dot(name: Seq<u8>)
    ensures
        -1 <= last_dot(name) < name.len(),
        last_dot(name) >= 0 ==> name[last_dot(name)] == DOT,
        forall|i: int| last_dot(name) < i < name.len() ==> name[i] != DOT,
    decreases name.len(),
{
    if name.len() > 0 && name.last() != DOT {
        let head = name.drop_last();
        lemma_last_dot(head);
        assert forall|i: int| last_dot(name) < i < name.len() implies name[i] != DOT by {
            if i < head.len() {
                assert(head[i] == name[i]);
            }
        }
    }
}

/// The font names are those of at least five bytes that end with `.otf` or
/// `.ttf`.
pub proof fn lemma_font_name_ending(name: Seq<u8>)
    ensures
        is_font_name(name) <==> name.len() >= 5 && (name.skip(name.len() - 4) == seq![DOT] + otf()
            || name.skip(name.len() - 4) == seq![DOT] + ttf()),
{
    lemma_last_dot(name);
    let dot = last_dot(name);
    let len = name.len() as int;
    if is_font_name(name) {
        let ext = name.skip(dot + 1);
        assert(ext.len() == 3);
        assert(dot == len - 4);
        let tail = name.skip(len - 4);
        assert(tail[0] == DOT);
        assert(tail[1] == ext[0] && tail[2] == ext[1] && tail[3] == ext[2]);
        if ext == otf() {
            assert(tail =~= seq![DOT] + otf());
        } else {
            assert(tail =~= seq![DOT] + ttf());
        }
    }
    if len >= 5 && (name.skip(len - 4) == seq![DOT] + otf() || name.skip(len - 4) == seq![DOT]
        + ttf()) {
        let tail = name.skip(len - 4);
        let wanted = if tail == seq![DOT] + otf() {
            otf()
        } else {
            ttf()
        };
        assert(tail == seq![DOT] + wanted);
        assert(tail[0] == name[len - 4] && tail[1] == name[len - 3] && tail[2] == name[len - 2]
            && tail[3] == name[len - 1]);
        assert((seq![DOT] + wanted)[0] == DOT);
        assert((seq![DOT] + wanted)[1] == wanted[0] && (seq![DOT] + wanted)[2] == wanted[1] && (
        seq![DOT] + wanted)[3] == wanted[2]);
        assert(name[len - 4] == DOT);
        assert(dot == len - 4) by {
            if dot < len - 4 {
                assert(name[len - 4] != DOT);
            }
        }
        assert(name.skip(dot + 1) =~= wanted);
    }
}

/// A file name is never empty, `.` or `..`, and holds no separator.
pub proof fn lemma_file_name(path: Seq<u8>)
    ensures
        file_name(path) matches Some(name) ==> name.len() > 0 && name != seq![DOT] && name != seq![
            DOT,
            DOT,
        ] && forall|i: int| 0 <= i < name.len() ==> name[i] != SEPARATOR,
    decreases path.len(),
{
    if path.len() > 0 {
        lemma_last_component_start(path);
        if last_component(path).len() == 0 || last_component(path) == seq![DOT] {
            lemma_file_name(path.drop_last());
        }
    }
}

fn component_start(path: &[u8], end: usize) -> (start: usize)
    requires
        end <= path.len(),
    ensures
        start == last_component_start(path@.take(end as int)),
        start <= end,
{
    let mut start = end;
    assert(path@.take(end as int).take(start as int) =~= path@.take(end as int));
    while start > 0 && path[start - 1] != SEPARATOR
        invariant
            start <= end <= path.len(),
            last_component_start(path@.take(end as int)) == last_component_start(
                path@.take(start as int),
            ),
        decreases start,
    {
        assert(path@.take(start as int).drop_last() =~= path@.take(start - 1));
        start -= 1;
    }
    start
}

fn copy_range(bytes: &[u8], from: usize, to: usize) -> (copy: Vec<u8>)
    requires
        from <= to <= bytes.len(),
    ensures
        copy@ == bytes@.subrange(from as int, to as int),
{
    let mut copy: Vec<u8> = Vec::new();
    let mut i = from;
    while i < to
        invariant
            from <= i <= to <= bytes.len(),
            copy@ == bytes@.subrange(from as int, i as int),
        decreases to - i,
    {
        copy.push(bytes[i]);
        assert(bytes@.subrange(from as int, i + 1) =~= bytes@.subrange(from as int, i as int).push(
            bytes@[i as int],
        ));
        i += 1;
    }
    copy
}

/// Finds the file name of an archive path.
pub fn path_file_name(path: &[u8]) -> (name: Option<Vec<u8>>)
    ensures
        match name {
            Some(n) => file_name(path@) == Some(n@),
            None => file_name(path@).is_none(),
        },
{
    let mut end = path.len();
    assert(path@.take(end as int) =~= path@);
    while end > 0
        invariant
            end <= path.len(),
            file_name(path@) == file_name(path@.take(end as int)),
        decreases end,
    {
        let start = component_start(path, end);
        let ghost head = path@.take(end as int);
        proof {
            assert(head.drop_last() =~= path@.take(end - 1));
            assert(last_component(head) =~= path@.subrange(start as int, end as int));
        }
        let len = end - start;
        if len == 0 || (len == 1 && path[start] == DOT) {
            proof {
                if len == 1 {
                    assert(last_component(head) =~= seq![DOT]);
                }
            }
            end -= 1;
        } else if len == 2 && path[start] == DOT && path[start + 1] == DOT {
            assert(last_component(head) =~= seq![DOT, DOT]);
            return None;
        } else {
            proof {
                let last = last_component(head);
                if last == seq![DOT] {
                    assert(last.len() == 1 && last[0] == DOT);
                }
                if last == seq![DOT, DOT] {
                    assert(last.len() == 2 && last[0] == DOT && last[1] == DOT);
                }
            }
            return Some(copy_range(path, start, end));
        }
    }
    assert(path@.take(0).len() == 0);
    None
}

/// Tests whether a file name is that of a font.
pub fn font_name(name: &[u8]) -> (font: bool)
    ensures
        font == is_font_name(name@),
{
    let mut dot = name.len();
    assert(name@.take(dot as int) =~= name@);
    while dot > 0 && name[dot - 1] != DOT
        invariant
            dot <= name.len(),
            last_dot(name@) == last_dot(name@.take(dot as int)),
        decreases dot,
    {
        assert(name@.take(dot as int).drop_last() =~= name@.take(dot - 1));
        dot -= 1;
    }
    // `dot` is one past the last `.`, or 0 where there is none.
    if dot <= 1 {
        assert(last_dot(name@) <= 0) by {
            if dot == 1 {
                assert(name@.take(1).last() == DOT);
            }
        }
        return false;
    }
    assert(last_dot(name@) == dot - 1) by {
        assert(name@.take(dot as int).last() == DOT);
    }
    let ghost ext = name@.skip(dot as int);
    if name.len() - dot != 3 {
        assert(ext.len() != 3);
        return false;
    }
    let font = (name[dot] == 0x6f || name[dot] == 0x74) && name[dot + 1] == 0x74 && name[dot + 2]
        == 0x66;
    proof {
        assert(ext[0] == name@[dot as int] && ext[1] == name@[dot + 1] && ext[2] == name@[dot + 2]);
        if font {
            if name[dot as int] == 0x6f {
                assert(ext =~= otf());
            } else {
                assert(ext =~= ttf());
            }
        } else {
            assert(otf()[0] == 0x6f && otf()[1] == 0x74 && otf()[2] == 0x66);
            assert(ttf()[0] == 0x74 && ttf()[1] == 0x74 && ttf()[2] == 0x66);
        }
    }
    font
}

} // verus!
