//! The parts of a path: its components, its file name, the stem and the extension
//! of that.
use vstd::prelude::*;

use crate::text;
use crate::text::CharClass;

verus! {

/// The last component of a path that is not `.`.
pub open spec fn last_component(components: Seq<Seq<char>>) -> Option<Seq<char>>
    decreases components.len(),
{
    if components.len() == 0 {
        None
    } else if components.last() == seq!['.'] {
        last_component(components.drop_last())
    } else {
        Some(components.last())
    }
}

/// The file name of a path: its last component, unless that is `..`.
pub open spec fn file_name(path: Seq<char>) -> Option<Seq<char>> {
    match last_component(text::pieces(path, CharClass::Slash)) {
        Some(name) => if name == seq!['.', '.'] {
            None
        } else {
            Some(name)
        },
        None => None,
    }
}

/// The position of the last dot of a name, or -1 where it has none.
pub open spec fn last_dot(name: Seq<char>) -> int
    decreases name.len(),
{
    if name.len() == 0 {
        -1
    } else if name.last() == '.' {
        name.len() - 1
    } else {
        last_dot(name.drop_last())
    }
}

/// No dot comes after the last one.
pub proof fn lemma_last_dot(name: Seq<char>, i: int)
    requires
        0 <= i < name.len(),
        name[i] == '.',
    ensures
        i <= last_dot(name) < name.len(),
    decreases name.len(),
{
    if name.last() != '.' {
        lemma_last_dot(name.drop_last(), i);
    }
}

/// A file name up to its last dot; the whole name where it has no dot but,
/// possibly, the one it starts with.
pub open spec fn file_stem(name: Seq<char>) -> Seq<char> {
    if last_dot(name) <= 0 {
        name
    } else {
        name.take(last_dot(name))
    }
}

/// What follows the last dot of a file name, where the name has a dot other
/// than the one it starts with.
pub open spec fn extension(name: Seq<char>) -> Option<Seq<char>> {
    if last_dot(name) <= 0 {
        None
    } else {
        Some(name.skip(last_dot(name) + 1))
    }
}

/// The file name of a path, where it has one.
pub fn path_file_name(path: &Vec<char>) -> (r: Option<Vec<char>>)
    ensures
        match r {
            Some(name) => file_name(path@) == Some(name@),
            None => file_name(path@) is None,
        },
{
    let components = text::split_pieces(path, CharClass::Slash);
    let ghost all = text::all_views(components@);
    let mut end: usize = components.len();
    proof {
        assert(all.take(end as int) =~= all);
    }
    let here: Vec<char> = vec!['.'];
    let parent: Vec<char> = vec!['.', '.'];
    proof {
        assert(here@ =~= seq!['.']);
        assert(parent@ =~= seq!['.', '.']);
    }
    while end > 0 && text::same_characters(&components[end - 1], &here)
        invariant
            end <= components@.len(),
            all == text::all_views(components@),
            here@ == seq!['.'],
            last_component(all.take(end as int)) == last_component(all),
        decreases end,
    {
        proof {
            assert(all.take(end as int).drop_last() =~= all.take(end - 1));
        }
        end -= 1;
    }
    if end == 0 {
        return None;
    }
    proof {
        assert(all.take(end as int).last() == components@[end - 1]@);
    }
    if text::same_characters(&components[end - 1], &parent) {
        None
    } else {
        Some(text::slice_of(&components[end - 1], 0, components[end - 1].len()))
    }
}

/// The position of the last dot of a name that does not start the name.
fn inner_dot(name: &Vec<char>) -> (r: Option<usize>)
    ensures
        match r {
            Some(position) => 0 < position < name@.len() && position == last_dot(name@),
            None => last_dot(name@) <= 0,
        },
{
    let mut end: usize = name.len();
    proof {
        assert(name@.take(end as int) =~= name@);
    }
    while end > 0 && name[end - 1] != '.'
        invariant
            end <= name@.len(),
            last_dot(name@.take(end as int)) == last_dot(name@),
        decreases end,
    {
        proof {
            assert(name@.take(end as int).drop_last() =~= name@.take(end - 1));
        }
        end -= 1;
    }
    if end <= 1 {
        None
    } else {
        Some(end - 1)
    }
}

/// A file name up to its last dot.
pub fn stem_of(name: &Vec<char>) -> (r: Vec<char>)
    ensures
        r@ == file_stem(name@),
{
    match inner_dot(name) {
        Some(position) => {
            proof {
                assert(name@.subrange(0, position as int) =~= name@.take(position as int));
            }
            text::slice_of(name, 0, position)
        },
        None => {
            proof {
                assert(name@.subrange(0, name@.len() as int) =~= name@);
            }
            text::slice_of(name, 0, name.len())
        },
    }
}

// ---------------------------------------------------------------------------
// Components
// ---------------------------------------------------------------------------

/// Whether a path starts with a separator or with the component `.`.
pub open spec fn led(path: Seq<char>) -> bool {
    path.len() > 0 && (path[0] == '/' || path[0] == '.' && (path.len() == 1 || path[1] == '/'))
}

/// Whether a path ends with a separator or with the component `.`.
pub open spec fn trailed(path: Seq<char>) -> bool {
    path.len() > 0 && (path.last() == '/' || path.last() == '.' && (path.len() == 1 || path[
    path.len() - 2] == '/'))
}

/// Names without those that are `.`.
pub open spec fn without_here(names: Seq<Seq<char>>) -> Seq<Seq<char>>
    decreases names.len(),
{
    if names.len() == 0 {
        names
    } else if names.last() == seq!['.'] {
        without_here(names.drop_last())
    } else {
        without_here(names.drop_last()).push(names.last())
    }
}

/// What follows the separator or the `.` that a path starts with, where it starts
/// with one.
pub open spec fn body(path: Seq<char>) -> Seq<char> {
    if led(path) {
        path.skip(1)
    } else {
        path
    }
}

/// The components of a path: `/` where it starts with one, or `.` where it starts
/// with that component, and then the names between the separators that are not
/// `.`.
pub open spec fn components(path: Seq<char>) -> Seq<Seq<char>> {
    let names = without_here(text::pieces(body(path), CharClass::Slash));
    if led(path) {
        seq![path.take(1)] + names
    } else {
        names
    }
}

/// A path without the separators and the components `.` that it starts with.
pub open spec fn clear_start(path: Seq<char>) -> Seq<char>
    decreases path.len(),
{
    if led(path) {
        clear_start(path.skip(1))
    } else {
        path
    }
}

/// A path without the separators and the components `.` that it ends with.
pub open spec fn clear_end(path: Seq<char>) -> Seq<char>
    decreases path.len(),
{
    if trailed(path) {
        clear_end(path.drop_last())
    } else {
        path
    }
}

/// The number of characters before the first separator of a path.
pub open spec fn name_length(path: Seq<char>) -> nat
    decreases path.len(),
{
    if path.len() == 0 || path[0] == '/' {
        0
    } else {
        1 + name_length(path.skip(1))
    }
}

/// What follows so many names of a path, `.` aside.
pub open spec fn after_names(path: Seq<char>, count: nat) -> Seq<char>
    decreases count,
{
    if count == 0 {
        path
    } else {
        let rest = clear_start(path);
        after_names(rest.skip(name_length(rest) as int), (count - 1) as nat)
    }
}

/// What is left of a path without its first components, as it is written, but
/// without separators and components `.` at its ends. What a whole path starts
/// with is kept.
pub open spec fn remainder(path: Seq<char>, count: nat) -> Seq<char> {
    if count == 0 {
        if led(path) {
            path.take(1) + clear_end(path.skip(1))
        } else {
            clear_end(path)
        }
    } else {
        let names = if led(path) {
            (count - 1) as nat
        } else {
            count
        };
        clear_end(clear_start(after_names(body(path), names)))
    }
}

/// Whether a path starts with the components of another.
pub open spec fn lies_below(path: Seq<char>, root: Seq<char>) -> bool {
    components(root).is_prefix_of(components(path))
}

/// The part of a path below a directory, where it lies in that.
pub fn below_root(path: &str, root: &str) -> (r: Option<String>)
    ensures
        match r {
            Some(part) => lies_below(path@, root@) && part@ == remainder(
                path@,
                components(root@).len(),
            ),
            None => !lies_below(path@, root@),
        },
{
    let whole = text::characters(path);
    let above = components_of(&text::characters(root));
    let all = components_of(&whole);
    let ghost (prefix, own) = (components(root@), components(path@));
    proof {
        assert(text::all_views(above@).len() == above@.len());
        assert(text::all_views(all@).len() == all@.len());
    }
    if above.len() > all.len() {
        return None;
    }
    for i in 0..above.len()
        invariant
            text::all_views(above@) == prefix,
            text::all_views(all@) == own,
            above@.len() <= all@.len(),
            prefix == components(root@),
            own == components(path@),
            prefix.take(i as int) == own.take(i as int),
    {
        proof {
            assert(prefix[i as int] == above@[i as int]@);
            assert(own[i as int] == all@[i as int]@);
        }
        if !text::same_characters(&above[i], &all[i]) {
            return None;
        }
        proof {
            assert(prefix.take(i + 1) =~= prefix.take(i as int).push(prefix[i as int]));
            assert(own.take(i + 1) =~= own.take(i as int).push(own[i as int]));
        }
    }
    proof {
        assert(prefix.take(above@.len() as int) =~= prefix);
        assert forall|k: int| 0 <= k < prefix.len() implies prefix[k] == own[k] by {
            assert(own.take(above@.len() as int)[k] == own[k]);
        }
    }
    Some(text::from_characters(&remaining(&whole, above.len())))
}

/// Whether what follows a position starts with a separator or with the component
/// `.`.
fn is_led(path: &Vec<char>, start: usize) -> (r: bool)
    requires
        start <= path@.len(),
    ensures
        r == led(path@.skip(start as int)),
{
    let length: usize = path.len();
    start < length && (path[start] == '/' || path[start] == '.' && (length - start == 1
        || path[start + 1] == '/'))
}

/// What follows the separator or the `.` that a path starts with.
fn body_of(path: &Vec<char>) -> (r: Vec<char>)
    ensures
        r@ == body(path@),
{
    proof {
        assert(path@.skip(0) =~= path@);
    }
    let start: usize = if is_led(path, 0) {
        1
    } else {
        0
    };
    proof {
        assert(path@.subrange(start as int, path@.len() as int) =~= path@.skip(start as int));
    }
    text::slice_of(path, start, path.len())
}

/// The components of a path.
fn components_of(path: &Vec<char>) -> (r: Vec<Vec<char>>)
    ensures
        text::all_views(r@) == components(path@),
{
    let names = text::split_pieces(&body_of(path), CharClass::Slash);
    let here: Vec<char> = vec!['.'];
    let mut r: Vec<Vec<char>> = Vec::new();
    proof {
        assert(path@.skip(0) =~= path@);
        assert(here@ =~= seq!['.']);
    }
    if is_led(path, 0) {
        let first = text::slice_of(path, 0, 1);
        proof {
            assert(first@ =~= path@.take(1));
        }
        r.push(first);
    }
    let ghost lead = text::all_views(r@);
    let ghost all = text::all_views(names@);
    proof {
        if led(path@) {
            assert(lead =~= seq![path@.take(1)]);
        } else {
            assert(lead =~= Seq::<Seq<char>>::empty());
        }
        assert(lead + without_here(all.take(0)) =~= lead);
    }
    for i in 0..names.len()
        invariant
            here@ == seq!['.'],
            all == text::all_views(names@),
            text::all_views(r@) == lead + without_here(all.take(i as int)),
    {
        let ghost before = text::all_views(r@);
        let ghost name = names@[i as int]@;
        proof {
            assert(all.take(i + 1).drop_last() =~= all.take(i as int));
            assert(all.take(i + 1).last() == name);
        }
        if !text::same_characters(&names[i], &here) {
            let kept = text::slice_of(&names[i], 0, names[i].len());
            proof {
                assert(kept@ =~= name);
            }
            r.push(kept);
            proof {
                assert(text::all_views(r@) =~= before.push(name));
                assert(before.push(name) =~= lead + without_here(all.take(i as int)).push(name));
            }
        }
    }
    proof {
        assert(all.take(names@.len() as int) =~= all);
        if !led(path@) {
            assert(lead + without_here(all) =~= without_here(all));
        }
    }
    r
}

/// A path without the separators and the components `.` that it starts with.
fn cleared_start(path: &Vec<char>) -> (r: Vec<char>)
    ensures
        r@ == clear_start(path@),
{
    let length: usize = path.len();
    let mut start: usize = 0;
    proof {
        assert(path@.skip(0) =~= path@);
    }
    while is_led(path, start)
        invariant
            start <= length == path@.len(),
            clear_start(path@.skip(start as int)) == clear_start(path@),
        decreases path@.len() - start,
    {
        proof {
            assert(path@.skip(start as int).skip(1) =~= path@.skip(start + 1));
        }
        start += 1;
    }
    proof {
        assert(path@.subrange(start as int, path@.len() as int) =~= path@.skip(start as int));
    }
    text::slice_of(path, start, path.len())
}

/// A path without the separators and the components `.` that it ends with.
fn cleared_end(path: &Vec<char>) -> (r: Vec<char>)
    ensures
        r@ == clear_end(path@),
{
    let mut end: usize = path.len();
    proof {
        assert(path@.take(end as int) =~= path@);
    }
    while end > 0 && (path[end - 1] == '/' || path[end - 1] == '.' && (end == 1 || path[end - 2]
        == '/'))
        invariant
            end <= path@.len(),
            clear_end(path@.take(end as int)) == clear_end(path@),
        decreases end,
    {
        proof {
            assert(path@.take(end as int).drop_last() =~= path@.take(end - 1));
        }
        end -= 1;
    }
    proof {
        assert(path@.subrange(0, end as int) =~= path@.take(end as int));
    }
    text::slice_of(path, 0, end)
}

/// What follows the first name of a path.
fn after_name(path: &Vec<char>) -> (r: Vec<char>)
    ensures
        r@ == path@.skip(name_length(path@) as int),
{
    let mut length: usize = 0;
    proof {
        assert(path@.skip(0) =~= path@);
    }
    while length < path.len() && path[length] != '/'
        invariant
            length <= path@.len(),
            length + name_length(path@.skip(length as int)) == name_length(path@),
        decreases path@.len() - length,
    {
        proof {
            assert(path@.skip(length as int).skip(1) =~= path@.skip(length + 1));
        }
        length += 1;
    }
    proof {
        assert(path@.subrange(length as int, path@.len() as int) =~= path@.skip(length as int));
    }
    text::slice_of(path, length, path.len())
}

/// What is left of a path without its first components.
fn remaining(path: &Vec<char>, count: usize) -> (r: Vec<char>)
    ensures
        r@ == remainder(path@, count as nat),
{
    proof {
        assert(path@.skip(0) =~= path@);
    }
    let starts = is_led(path, 0);
    let after = body_of(path);
    if count == 0 {
        let mut end = cleared_end(&after);
        if !starts {
            return end;
        }
        let mut r = text::slice_of(path, 0, 1);
        proof {
            assert(r@ =~= path@.take(1));
        }
        r.append(&mut end);
        return r;
    }
    let names: usize = if starts {
        count - 1
    } else {
        count
    };
    let mut rest = after;
    for i in 0..names
        invariant
            after_names(rest@, (names - i) as nat) == after_names(body(path@), names as nat),
    {
        rest = after_name(&cleared_start(&rest));
    }
    cleared_end(&cleared_start(&rest))
}

/// The part of a path below a directory has the components of the path that
/// follow those of the directory.
pub proof fn law_part_below_root_has_the_other_components(path: Seq<char>, root: Seq<char>)
    requires
        lies_below(path, root),
    ensures
        components(remainder(path, components(root).len())) == components(path).skip(
            components(root).len() as int,
        ),
{
    let count = components(root).len();
    let rest = remainder(path, count);
    let inner = body(path);
    lemma_clear_end(inner);
    if count == 0 {
        if led(path) {
            let end = clear_end(inner);
            assert(rest.take(1) =~= path.take(1));
            assert(rest.skip(1) =~= end);
        }
        assert(components(path).skip(0) =~= components(path));
    } else {
        let names = if led(path) {
            (count - 1) as nat
        } else {
            count
        };
        let after = after_names(inner, names);
        lemma_after_names(inner, names);
        lemma_clear_start(after);
        lemma_clear_end(clear_start(after));
        assert(components(path).skip(count as int) =~= names_of(inner).skip(names as int));
    }
}

/// The names between the separators of a text, `.` aside.
spec fn names_of(path: Seq<char>) -> Seq<Seq<char>> {
    without_here(text::pieces(path, CharClass::Slash))
}

/// The pieces of two texts that meet at a separator.
proof fn lemma_pieces_add(a: Seq<char>, b: Seq<char>)
    requires
        a.len() == 0 || b.len() == 0 || a.last() == '/' || b[0] == '/',
    ensures
        text::pieces(a + b, CharClass::Slash) == text::pieces(a, CharClass::Slash)
            + text::pieces(b, CharClass::Slash),
{
    text::lemma_pieces_add(a, b, CharClass::Slash);
}

/// The names of two lists, `.` aside.
proof fn lemma_without_here_add(a: Seq<Seq<char>>, b: Seq<Seq<char>>)
    ensures
        without_here(a + b) == without_here(a) + without_here(b),
    decreases b.len(),
{
    if b.len() == 0 {
        assert(a + b =~= a);
        assert(without_here(a) + b =~= without_here(a));
    } else {
        lemma_without_here_add(a, b.drop_last());
        assert((a + b).drop_last() =~= a + b.drop_last());
        let (first, second) = (without_here(a), without_here(b.drop_last()));
        if b.last() != seq!['.'] {
            assert(first + second.push(b.last()) =~= (first + second).push(b.last()));
        }
    }
}

/// The names of two texts that meet at a separator.
proof fn lemma_names_add(a: Seq<char>, b: Seq<char>)
    requires
        a.len() == 0 || b.len() == 0 || a.last() == '/' || b[0] == '/',
    ensures
        names_of(a + b) == names_of(a) + names_of(b),
{
    lemma_pieces_add(a, b);
    lemma_without_here_add(
        text::pieces(a, CharClass::Slash),
        text::pieces(b, CharClass::Slash),
    );
}

/// A text without separators is one piece.
proof fn lemma_one_piece(name: Seq<char>)
    requires
        name.len() > 0,
        forall|i: int| 0 <= i < name.len() ==> name[i] != '/',
    ensures
        text::pieces(name, CharClass::Slash) == seq![name],
{
    text::lemma_one_piece(name, CharClass::Slash);
}

/// Neither a separator nor a `.` is a name.
proof fn lemma_no_name(c: char)
    requires
        c == '/' || c == '.',
    ensures
        names_of(seq![c]) == Seq::<Seq<char>>::empty(),
{
    if c == '.' {
        lemma_one_piece(seq![c]);
        assert(without_here(seq![seq![c]].drop_last()) =~= Seq::empty());
    } else {
        assert(text::pieces(seq![c].drop_last(), CharClass::Slash) =~= Seq::empty());
    }
}

/// A path keeps its names without what it starts with.
proof fn lemma_clear_start(path: Seq<char>)
    ensures
        names_of(clear_start(path)) == names_of(path),
        !led(clear_start(path)),
    decreases path.len(),
{
    if led(path) {
        let rest = path.skip(1);
        lemma_clear_start(rest);
        lemma_no_name(path[0]);
        lemma_names_add(seq![path[0]], rest);
        assert(seq![path[0]] + rest =~= path);
        assert(Seq::empty() + names_of(rest) =~= names_of(rest));
    }
}

/// A path keeps its names and its start without what it ends with.
proof fn lemma_clear_end(path: Seq<char>)
    ensures
        names_of(clear_end(path)) == names_of(path),
        clear_end(path).is_prefix_of(path),
        !trailed(clear_end(path)),
        !led(path) ==> !led(clear_end(path)),
    decreases path.len(),
{
    if trailed(path) {
        let rest = path.drop_last();
        lemma_clear_end(rest);
        lemma_no_name(path.last());
        lemma_names_add(rest, seq![path.last()]);
        assert(rest + seq![path.last()] =~= path);
        assert(names_of(rest) + Seq::empty() =~= names_of(rest));
        let end = clear_end(path);
        assert(forall|i: int| 0 <= i < end.len() ==> end[i] == rest[i]);
        assert(end =~= path.take(end.len() as int));
    } else {
        assert(path.take(path.len() as int) =~= path);
    }
}

/// How far the first name of a path reaches.
proof fn lemma_name_length(path: Seq<char>)
    ensures
        name_length(path) <= path.len(),
        forall|i: int| 0 <= i < name_length(path) ==> path[i] != '/',
        name_length(path) < path.len() ==> path[name_length(path) as int] == '/',
    decreases path.len(),
{
    if path.len() > 0 && path[0] != '/' {
        let rest = path.skip(1);
        lemma_name_length(rest);
        assert forall|i: int| 0 <= i < name_length(path) implies path[i] != '/' by {
            if i > 0 {
                assert(rest[i - 1] == path[i]);
            }
        }
    }
}

/// The names that follow the first ones of a path.
proof fn lemma_after_names(path: Seq<char>, count: nat)
    requires
        count <= names_of(path).len(),
    ensures
        names_of(after_names(path, count)) == names_of(path).skip(count as int),
    decreases count,
{
    if count == 0 {
        assert(names_of(path).skip(0) =~= names_of(path));
    } else {
        let rest = clear_start(path);
        lemma_clear_start(path);
        lemma_name_length(rest);
        let length = name_length(rest) as int;
        let (name, after) = (rest.take(length), rest.skip(length));
        if rest.len() == 0 {
            assert(names_of(rest) =~= Seq::empty());
        } else {
            assert(length > 0) by {
                assert(rest[0] != '/');
            }
            lemma_names_add(name, after);
            assert(name + after =~= rest);
            lemma_one_piece(name);
            assert(name != seq!['.']) by {
                if name == seq!['.'] {
                    assert(name[0] == rest[0]);
                    assert(length == 1);
                }
            }
            assert(without_here(seq![name].drop_last()) =~= Seq::empty());
            assert(names_of(name) =~= seq![name]);
            assert(names_of(rest).skip(1) =~= names_of(after));
            lemma_after_names(after, (count - 1) as nat);
            assert(names_of(path).skip(count as int) =~= names_of(after).skip(count - 1));
        }
    }
}

// ---------------------------------------------------------------------------
// Audio files
// ---------------------------------------------------------------------------

/// A text with its ASCII letters in lower case.
pub open spec fn ascii_lowered(text: Seq<char>) -> Seq<char> {
    text.map_values(|c: char| text::ascii_lower(c))
}

/// The extensions of audio files, in lower case.
pub open spec fn audio_extensions() -> Seq<Seq<char>> {
    seq![
        "aac"@,
        "aif"@,
        "aiff"@,
        "flac"@,
        "m4a"@,
        "mp3"@,
        "ogg"@,
        "opus"@,
        "wav"@,
        "wma"@,
    ]
}

/// Whether a path has the given extension, the case of ASCII letters aside.
pub open spec fn has_extension(path: Seq<char>, lowered: Seq<char>) -> bool {
    match file_name(path) {
        Some(name) => match extension(name) {
            Some(found) => ascii_lowered(found) == lowered,
            None => false,
        },
        None => false,
    }
}

/// Whether a path is that of an audio file.
pub open spec fn audio(path: Seq<char>) -> bool {
    exists|i: int|
        0 <= i < audio_extensions().len() && has_extension(path, #[trigger] audio_extensions()[i])
}

/// The extension of a path with its ASCII letters in lower case, where the path
/// has an extension.
fn lowered_extension(path: &str) -> (r: Option<Vec<char>>)
    ensures
        match r {
            Some(found) => forall|lowered: Seq<char>| #[trigger]
                has_extension(path@, lowered) == (found@ == lowered),
            None => forall|lowered: Seq<char>| !#[trigger] has_extension(path@, lowered),
        },
{
    let name = match path_file_name(&text::characters(path)) {
        Some(name) => name,
        None => {
            return None;
        },
    };
    let dot: usize = match inner_dot(&name) {
        Some(position) => position,
        None => {
            return None;
        },
    };
    let mut r: Vec<char> = Vec::new();
    let ghost found = name@.skip(dot + 1);
    for i in dot + 1..name.len()
        invariant
            dot < name@.len(),
            found == name@.skip(dot + 1),
            r@ == ascii_lowered(found.take(i - dot - 1)),
    {
        r.push(text::to_ascii_lower(name[i]));
        proof {
            assert(found.take(i - dot) =~= found.take(i - dot - 1).push(name@[i as int]));
            assert(ascii_lowered(found.take(i - dot)) =~= ascii_lowered(
                found.take(i - dot - 1),
            ).push(text::ascii_lower(name@[i as int])));
        }
    }
    proof {
        assert(found.take(name@.len() - dot - 1) =~= found);
    }
    Some(r)
}

/// Whether a path has the given extension, the case of ASCII letters aside.
/// The extension asked for is written in lower case.
pub fn path_has_extension(path: &str, lowered: &str) -> (r: bool)
    ensures
        r == has_extension(path@, lowered@),
{
    match lowered_extension(path) {
        Some(found) => text::same_characters(&found, &text::characters(lowered)),
        None => false,
    }
}

/// Whether a path is that of an audio file, by its extension.
pub fn is_audio(path: &str) -> (r: bool)
    ensures
        r == audio(path@),
{
    let supported: [&str; 10] = [
        "aac",
        "aif",
        "aiff",
        "flac",
        "m4a",
        "mp3",
        "ogg",
        "opus",
        "wav",
        "wma",
    ];
    for i in 0..10usize
        invariant
            supported@.len() == 10,
            forall|k: int| 0 <= k < 10 ==> (#[trigger] supported@[k])@ == audio_extensions()[k],
            forall|k: int|
                0 <= k < i ==> !has_extension(path@, #[trigger] audio_extensions()[k]),
    {
        if path_has_extension(path, supported[i]) {
            proof {
                assert(has_extension(path@, audio_extensions()[i as int]));
            }
            return true;
        }
    }
    false
}

/// Whether a path is that of a WAV file, by its extension.
pub fn is_wav(path: &str) -> (r: bool)
    ensures
        r == has_extension(path@, "wav"@),
{
    path_has_extension(path, "wav")
}

// ---------------------------------------------------------------------------
// Laws
// ---------------------------------------------------------------------------

/// A name that is a stem, a dot and an extension without a dot has these for its stem
/// and its extension.
pub proof fn law_name_is_stem_and_extension(stem: Seq<char>, ending: Seq<char>)
    requires
        stem.len() > 0,
        !ending.contains('.'),
    ensures
        file_stem(stem.push('.') + ending) == stem,
        extension(stem.push('.') + ending) == Some(ending),
{
    let name = stem.push('.') + ending;
    lemma_dot_before(stem, ending);
    assert(name.take(stem.len() as int) =~= stem);
    assert(name.skip(stem.len() as int + 1) =~= ending);
}

/// The last dot of a name is the one before an ending without a dot.
proof fn lemma_dot_before(stem: Seq<char>, ending: Seq<char>)
    requires
        !ending.contains('.'),
    ensures
        last_dot(stem.push('.') + ending) == stem.len(),
    decreases ending.len(),
{
    let name = stem.push('.') + ending;
    if ending.len() == 0 {
        assert(name.last() == '.');
    } else {
        let rest = ending.drop_last();
        assert(name.drop_last() =~= stem.push('.') + rest);
        assert(ending.contains(ending[ending.len() - 1]));
        assert forall|i: int| 0 <= i < rest.len() implies rest[i] != '.' by {
            assert(ending.contains(ending[i]));
        }
        lemma_dot_before(stem, rest);
    }
}

/// A name without a dot, but for one that it may start with, is its own stem and has
/// no extension.
pub proof fn law_name_without_extension(name: Seq<char>)
    requires
        forall|i: int| 0 < i < name.len() ==> name[i] != '.',
    ensures
        file_stem(name) == name,
        extension(name) is None,
{
    lemma_no_inner_dot(name);
}

/// Only the first character of such a name can be a dot.
proof fn lemma_no_inner_dot(name: Seq<char>)
    requires
        forall|i: int| 0 < i < name.len() ==> name[i] != '.',
    ensures
        last_dot(name) <= 0,
    decreases name.len(),
{
    if name.len() > 1 {
        assert(name[name.len() - 1] != '.');
        lemma_no_inner_dot(name.drop_last());
    } else if name.len() == 1 {
        assert(last_dot(name.drop_last()) == -1);
    }
}

/// Whether a text is empty or ends with a separator, so that a name can follow it.
pub open spec fn folder(text: Seq<char>) -> bool {
    text.len() == 0 || text.last() == '/'
}

/// Whether a text is a name: not empty, without separators, and neither `.` nor `..`.
pub open spec fn plain_name(name: Seq<char>) -> bool {
    &&& name.len() > 0
    &&& forall|i: int| 0 <= i < name.len() ==> #[trigger] name[i] != '/'
    &&& !(name.len() == 1 && name[0] == '.')
    &&& !(name.len() == 2 && name[0] == '.' && name[1] == '.')
}

/// The file name of a path is the name behind its last separator.
pub proof fn law_file_name_is_the_last_name(above: Seq<char>, name: Seq<char>)
    requires
        folder(above),
        plain_name(name),
    ensures
        file_name(above + name) == Some(name),
{
    let class = CharClass::Slash;
    assert forall|i: int| 0 <= i < name.len() implies !class.holds(#[trigger] name[i]) by {}
    text::lemma_pieces_add(above, name, class);
    text::lemma_one_piece(name, class);
    let all = text::pieces(above + name, class);
    assert(all.last() == name);
    assert(seq!['.'][0] == '.' && seq!['.'].len() == 1);
    assert(seq!['.', '.'][0] == '.' && seq!['.', '.'][1] == '.' && seq!['.', '.'].len() == 2);
}

/// Separators and components `.` at the end of a path do not change its file name. A
/// path that ends with `..` has none, nor has an empty path.
pub proof fn law_what_ends_a_path(path: Seq<char>)
    ensures
        file_name(path.push('/')) == file_name(path),
        file_name(path.push('/').push('.')) == file_name(path),
        file_name(path.push('/').push('.').push('.')) is None,
        file_name(Seq::empty()) is None,
{
    let class = CharClass::Slash;
    let whole = path.push('/');
    let (here, parent) = (seq!['.'], seq!['.', '.']);
    assert(whole.drop_last() =~= path);
    assert(text::pieces(whole, class) == text::pieces(path, class));
    text::lemma_pieces_add(whole, here, class);
    text::lemma_pieces_add(whole, parent, class);
    text::lemma_one_piece(here, class);
    text::lemma_one_piece(parent, class);
    assert(whole.push('.') =~= whole + here);
    assert(whole.push('.').push('.') =~= whole + parent);
    let all = text::pieces(path, class);
    assert((all + seq![here]).drop_last() =~= all);
    assert((all + seq![here]).last() == here);
    assert((all + seq![parent]).last() == parent);
    assert(parent.len() == 2 && here.len() == 1);
    assert(text::pieces(Seq::empty(), class) == Seq::<Seq<char>>::empty());
}

/// Whether a text is the given one in small or in capital ASCII letters.
pub open spec fn spelled(text: Seq<char>, small: Seq<char>) -> bool {
    &&& text.len() == small.len()
    &&& forall|i: int|
        0 <= i < small.len() ==> {
            ||| #[trigger] text[i] == small[i]
            ||| 'A' <= text[i] <= 'Z' && text[i] as int + 32 == small[i] as int
        }
}

/// A text in lower case is another without capital letters exactly where it spells it.
proof fn lemma_spelled(text: Seq<char>, small: Seq<char>)
    requires
        forall|i: int| 0 <= i < small.len() ==> !('A' <= #[trigger] small[i] <= 'Z'),
    ensures
        ascii_lowered(text) == small <==> spelled(text, small),
{
    let lowered = ascii_lowered(text);
    assert forall|i: int| 0 <= i < text.len() implies 'A' <= text[i] <= 'Z'
        ==> #[trigger] lowered[i] as int == text[i] as int + 32 by {}
    if lowered == small {
        assert forall|i: int| 0 <= i < small.len() implies {
            ||| #[trigger] text[i] == small[i]
            ||| 'A' <= text[i] <= 'Z' && text[i] as int + 32 == small[i] as int
        } by {
            assert(lowered[i] == small[i]);
        }
    }
    if spelled(text, small) {
        assert forall|i: int| 0 <= i < small.len() implies #[trigger] lowered[i] == small[i] by {
            assert(!('A' <= small[i] <= 'Z'));
            if 'A' <= text[i] <= 'Z' {
                assert(text[i] != small[i]);
                assert(lowered[i] as int == small[i] as int);
            }
        }
        assert(lowered =~= small);
    }
}

/// Audio files are those with one of ten extensions, WAV files those with one of them,
/// in small or capital letters. What the stem and the folders are called makes no
/// difference.
#[verifier::rlimit(40)]
pub proof fn law_audio_files_are_told_by_extension(
    above: Seq<char>,
    stem: Seq<char>,
    ending: Seq<char>,
    path: &str,
    r: bool,
    wav: bool,
)
    requires
        folder(above),
        stem.len() > 0,
        !stem.contains('/'),
        ending.len() > 0,
        !ending.contains('/'),
        !ending.contains('.'),
        path@ == above + (stem.push('.') + ending),
        call_ensures(is_audio, (path,), r),
        call_ensures(is_wav, (path,), wav),
    ensures
        wav == spelled(ending, "wav"@),
        r <==> {
            ||| spelled(ending, "aac"@)
            ||| spelled(ending, "aif"@)
            ||| spelled(ending, "aiff"@)
            ||| spelled(ending, "flac"@)
            ||| spelled(ending, "m4a"@)
            ||| spelled(ending, "mp3"@)
            ||| spelled(ending, "ogg"@)
            ||| spelled(ending, "opus"@)
            ||| spelled(ending, "wav"@)
            ||| spelled(ending, "wma"@)
        },
{
    let name = stem.push('.') + ending;
    assert forall|i: int| 0 <= i < name.len() implies #[trigger] name[i] != '/' by {
        if i < stem.len() {
            assert(stem.contains(stem[i]));
        } else if i > stem.len() {
            assert(ending.contains(ending[i - stem.len() - 1]));
        }
    }
    law_file_name_is_the_last_name(above, name);
    law_name_is_stem_and_extension(stem, ending);
    lemma_extensions_are_small();
    let all = audio_extensions();
    assert forall|i: int| 0 <= i < all.len() implies has_extension(path@, #[trigger] all[i])
        == spelled(ending, all[i]) by {
        lemma_spelled(ending, all[i]);
    }
    assert(all.len() == 10);
    assert(has_extension(path@, all[8]) == spelled(ending, "wav"@));
    assert(all[0] == "aac"@ && all[1] == "aif"@ && all[2] == "aiff"@ && all[3] == "flac"@ && all[4]
        == "m4a"@ && all[5] == "mp3"@ && all[6] == "ogg"@ && all[7] == "opus"@ && all[8] == "wav"@
        && all[9] == "wma"@);
}

/// A file whose name has no dot, but for one that it may start with, is no audio file.
pub proof fn law_files_without_extension_are_no_audio(
    above: Seq<char>,
    name: Seq<char>,
    path: &str,
    r: bool,
)
    requires
        folder(above),
        plain_name(name),
        forall|i: int| 0 < i < name.len() ==> name[i] != '.',
        path@ == above + name,
        call_ensures(is_audio, (path,), r),
    ensures
        !r,
{
    law_file_name_is_the_last_name(above, name);
    law_name_without_extension(name);
}

/// The extensions of audio files have no capital letters.
proof fn lemma_extensions_are_small()
    ensures
        forall|i: int, k: int|
            0 <= i < audio_extensions().len() && 0 <= k < audio_extensions()[i].len() ==> !('A' <= (
            #[trigger] audio_extensions()[i][k]) <= 'Z'),
{
    reveal_strlit("aac");
    reveal_strlit("aif");
    reveal_strlit("aiff");
    reveal_strlit("flac");
    reveal_strlit("m4a");
    reveal_strlit("mp3");
    reveal_strlit("ogg");
    reveal_strlit("opus");
    reveal_strlit("wav");
    reveal_strlit("wma");
}

/// The file name is found where a path has one: the name behind its last separator.
pub proof fn law_file_name_is_found(
    above: Seq<char>,
    name: Seq<char>,
    path: &Vec<char>,
    r: Option<Vec<char>>,
)
    requires
        folder(above),
        plain_name(name),
        path@ == above + name,
        call_ensures(path_file_name, (path,), r),
    ensures
        r is Some,
        r->0@ == name,
{
    law_file_name_is_the_last_name(above, name);
}

/// The stem of a file name is what stands before its last dot, or all of it where there
/// is no dot but at its start.
pub proof fn law_stem_stands_before_the_last_dot(
    stem: Seq<char>,
    ending: Seq<char>,
    name: &Vec<char>,
    r: Vec<char>,
)
    requires
        call_ensures(stem_of, (name,), r),
    ensures
        stem.len() > 0 && !ending.contains('.') && name@ == stem.push('.') + ending ==> r@ == stem,
        (forall|i: int| 0 < i < name@.len() ==> name@[i] != '.') ==> r@ == name@,
{
    if stem.len() > 0 && !ending.contains('.') {
        law_name_is_stem_and_extension(stem, ending);
    }
    if forall|i: int| 0 < i < name@.len() ==> name@[i] != '.' {
        law_name_without_extension(name@);
    }
}

/// The names of a path that does not start with a separator or `.` are its first name
/// and those behind it.
proof fn lemma_first_name(path: Seq<char>)
    requires
        path.len() > 0,
        !led(path),
    ensures
        0 < name_length(path) <= path.len(),
        names_of(path) == seq![path.take(name_length(path) as int)] + names_of(
            path.skip(name_length(path) as int),
        ),
{
    lemma_name_length(path);
    let length = name_length(path) as int;
    let (name, after) = (path.take(length), path.skip(length));
    assert(length > 0) by {
        assert(path[0] != '/');
    }
    lemma_names_add(name, after);
    assert(name + after =~= path);
    lemma_one_piece(name);
    assert(name != seq!['.']) by {
        if name == seq!['.'] {
            assert(name[0] == path[0]);
            assert(length == 1);
        }
    }
    assert(without_here(seq![name].drop_last()) =~= Seq::empty());
    assert(names_of(name) =~= seq![name]);
}

/// What a path starts with is cleared as it is where more follows behind a separator.
proof fn lemma_clear_start_of_both(a: Seq<char>, b: Seq<char>)
    requires
        b.len() > 0,
        b[0] == '/',
    ensures
        clear_start(a).len() == 0 ==> clear_start(a + b) == clear_start(b),
        clear_start(a).len() > 0 ==> clear_start(a + b) == clear_start(a) + b,
        a.len() > 0 ==> led(a + b) == led(a),
    decreases a.len(),
{
    if a.len() == 0 {
        assert(a + b =~= b);
    } else {
        assert((a + b)[0] == a[0]);
        if a.len() == 1 {
            assert((a + b)[1] == b[0]);
        } else {
            assert((a + b)[1] == a[1]);
        }
        if led(a) {
            lemma_clear_start_of_both(a.skip(1), b);
            assert((a + b).skip(1) =~= a.skip(1) + b);
        }
    }
}

/// The first name of a path is as long where more follows behind a separator.
proof fn lemma_name_length_of_both(a: Seq<char>, b: Seq<char>)
    requires
        b.len() > 0,
        b[0] == '/',
    ensures
        name_length(a + b) == name_length(a),
    decreases a.len(),
{
    if a.len() == 0 {
        assert(a + b =~= b);
    } else {
        assert((a + b)[0] == a[0]);
        assert((a + b).skip(1) =~= a.skip(1) + b);
        lemma_name_length_of_both(a.skip(1), b);
    }
}

/// Behind the names of one path stands what follows it.
proof fn lemma_behind_all_names(a: Seq<char>, b: Seq<char>)
    requires
        b.len() > 0,
        b[0] == '/',
    ensures
        clear_start(after_names(a + b, names_of(a).len())) == clear_start(b),
    decreases names_of(a).len(),
{
    let count = names_of(a).len();
    let rest = clear_start(a);
    lemma_clear_start(a);
    lemma_clear_start_of_both(a, b);
    if rest.len() == 0 {
        assert(names_of(rest) =~= Seq::empty());
    } else {
        lemma_first_name(rest);
        lemma_name_length_of_both(rest, b);
        let length = name_length(rest) as int;
        let after = rest.skip(length);
        assert((rest + b).skip(length) =~= after + b);
        assert(names_of(after).len() == count - 1);
        lemma_behind_all_names(after, b);
    }
}

/// Whether a path, as it is written, is that of something below a directory: not empty,
/// and with no separator or component `.` at its ends.
pub open spec fn inner_path(path: Seq<char>) -> bool {
    &&& path.len() > 0
    &&& path[0] != '/' && path.last() != '/'
    &&& !(path[0] == '.' && (path.len() == 1 || path[1] == '/'))
    &&& !(path.last() == '.' && path[path.len() - 2] == '/')
}

/// What is written behind a directory and a separator is the part below that directory.
pub proof fn law_part_below_a_directory_is_what_follows(
    path: &str,
    root: &str,
    rest: Seq<char>,
    r: Option<String>,
)
    requires
        root@.len() > 0,
        inner_path(rest),
        path@ == root@.push('/') + rest,
        call_ensures(below_root, (path, root), r),
    ensures
        r is Some,
        r->0@ == rest,
{
    let (whole, above) = (path@, root@);
    let tail = seq!['/'] + rest;
    assert(whole =~= above + tail);
    lemma_clear_start_of_both(above, tail);
    let inner = body(above);
    assert(body(whole) =~= inner + tail);
    lemma_names_add(inner, tail);
    let (x, y) = (components(above), components(whole));
    if led(above) {
        assert(whole.take(1) =~= above.take(1));
    }
    assert(y =~= x + names_of(tail));
    assert(x.is_prefix_of(y));
    if x.len() == 0 {
        lemma_first_name(above);
    }
    lemma_behind_all_names(inner, tail);
    assert(tail.skip(1) =~= rest);
    assert(led(tail));
    assert(clear_start(tail) == clear_start(rest));
    assert(!led(rest));
    assert(!trailed(rest));
}

/// A path that leaves a directory for another name beside it has no part below it.
pub proof fn law_nothing_below_another_directory(
    above: Seq<char>,
    name: Seq<char>,
    other: Seq<char>,
    rest: Seq<char>,
    path: &str,
    root: &str,
    r: Option<String>,
)
    requires
        folder(above),
        plain_name(name),
        plain_name(other),
        name != other,
        rest.len() == 0 || rest[0] == '/',
        root@ == above + name,
        path@ == above + other + rest,
        call_ensures(below_root, (path, root), r),
    ensures
        r is None,
{
    let place = components_above(above).len() as int;
    lemma_components_of_name(above, name, Seq::empty());
    lemma_components_of_name(above, other, rest);
    assert(above + name + Seq::empty() =~= root@);
    if lies_below(path@, root@) {
        assert(components(root@)[place] == components(path@)[place]);
    }
}

/// The components of what stands before a name.
spec fn components_above(above: Seq<char>) -> Seq<Seq<char>> {
    if above.len() == 0 {
        Seq::empty()
    } else {
        components(above)
    }
}

/// A name is the only one of a text that is nothing else.
proof fn lemma_plain_name(name: Seq<char>)
    requires
        plain_name(name),
    ensures
        names_of(name) == seq![name],
{
    lemma_one_piece(name);
    assert(seq!['.'].len() == 1 && seq!['.'][0] == '.');
    assert(without_here(seq![name].drop_last()) =~= Seq::empty());
    assert(names_of(name) =~= seq![name]);
}

/// A name is the component that follows those of what stands before it.
#[verifier::rlimit(40)]
proof fn lemma_components_of_name(above: Seq<char>, name: Seq<char>, rest: Seq<char>)
    requires
        folder(above),
        plain_name(name),
        rest.len() == 0 || rest[0] == '/',
    ensures
        components(above + name + rest).len() > components_above(above).len(),
        components(above + name + rest)[components_above(above).len() as int] == name,
{
    let whole = above + name + rest;
    assert(name[0] != '/');
    lemma_plain_name(name);
    if above.len() == 0 {
        assert(whole =~= name + rest);
        assert(whole[0] == name[0]);
        if name.len() > 1 {
            assert(name[1] != '/');
            assert(whole[1] == name[1]);
        }
        assert(!led(whole));
        lemma_names_add(name, rest);
        assert(components(whole) =~= seq![name] + names_of(rest));
    } else {
        assert(whole[0] == above[0]);
        if above.len() > 1 {
            assert(whole[1] == above[1]);
        }
        assert(led(whole) == led(above));
        let inner = body(above);
        assert(body(whole) =~= inner + (name + rest));
        if inner.len() > 0 {
            assert(inner.last() == above.last());
        }
        lemma_names_add(inner, name + rest);
        lemma_names_add(name, rest);
        let x = components(above);
        assert(names_of(body(whole)) =~= names_of(inner) + (seq![name] + names_of(rest)));
        if led(above) {
            assert(whole.take(1) =~= above.take(1));
        }
        assert(components(whole) =~= x + (seq![name] + names_of(rest)));
    }
}

} // verus!
