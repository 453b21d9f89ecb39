//! The titles of tracks and the file stems of their videos.
use vstd::prelude::*;

use crate::paths;
use crate::text;
use crate::text::CharClass;

verus! {

/// The name that a file is sorted by: its file name in lower case, empty where
/// the path has no file name.
pub open spec fn sort_key(path: Seq<char>) -> Seq<char> {
    match paths::file_name(path) {
        Some(name) => text::lowercase(name),
        None => Seq::empty(),
    }
}

/// Whether a name starts with `BGM` in any case.
pub open spec fn has_track_prefix(name: Seq<char>) -> bool {
    &&& name.len() >= 3
    &&& (name[0] == 'B' || name[0] == 'b')
    &&& (name[1] == 'G' || name[1] == 'g')
    &&& (name[2] == 'M' || name[2] == 'm')
}

/// A name without the prefix `BGM` and the separators that follow it.
pub open spec fn bare_name(name: Seq<char>) -> Seq<char> {
    text::trim_start(
        if has_track_prefix(name) {
            name.skip(3)
        } else {
            name
        },
        CharClass::TitleLead,
    )
}

/// A text with each underscore turned into a space.
pub open spec fn underscores_spaced(text: Seq<char>) -> Seq<char> {
    text.map_values(
        |c: char|
            if c == '_' {
                ' '
            } else {
                c
            },
    )
}

/// The title that lowered texts give, the bare name and the whole stem: the words
/// of the name, or the stem where no word is left.
pub open spec fn lowered_title(name: Seq<char>, stem: Seq<char>) -> Seq<char> {
    let words = text::single_spaced(underscores_spaced(name));
    if words.len() == 0 {
        stem
    } else {
        words
    }
}

/// The title that a file stem gives: its words in lower case, or the whole stem
/// in lower case where no word is left.
pub open spec fn stem_title(stem: Seq<char>) -> Seq<char> {
    lowered_title(text::lowercase(bare_name(stem)), text::lowercase(stem))
}

/// The stem of a path's file name, empty where the path has no file name.
pub open spec fn path_stem(path: Seq<char>) -> Seq<char> {
    match paths::file_name(path) {
        Some(name) => paths::file_stem(name),
        None => Seq::empty(),
    }
}

/// The name that a file is sorted by: its file name in lower case, empty where
/// the path has no file name.
pub fn sort_name(path: &str) -> (r: String)
    ensures
        r@ == sort_key(path@),
{
    match paths::path_file_name(&text::characters(path)) {
        Some(name) => text::from_characters(&name).as_str().to_lowercase(),
        None => String::new(),
    }
}

/// The title that lowered texts give: the bare name of a file, and its whole
/// stem, which is taken where no word is left of the name.
pub fn title_from_lowered(name: &str, stem: &str) -> (r: String)
    ensures
        r@ == lowered_title(name@, stem@),
{
    let lowered = text::characters(name);
    let mut plain: Vec<char> = Vec::new();
    for i in 0..lowered.len()
        invariant
            plain@ == underscores_spaced(lowered@.take(i as int)),
    {
        plain.push(
            if lowered[i] == '_' {
                ' '
            } else {
                lowered[i]
            },
        );
        proof {
            assert(underscores_spaced(lowered@.take(i + 1)) =~= underscores_spaced(
                lowered@.take(i as int),
            ).push(
                if lowered@[i as int] == '_' {
                    ' '
                } else {
                    lowered@[i as int]
                },
            ));
        }
    }
    proof {
        assert(lowered@.take(lowered@.len() as int) =~= lowered@);
    }
    let words = text::to_single_spaced(&plain);
    if words.len() == 0 {
        stem.to_owned()
    } else {
        text::from_characters(&words)
    }
}

/// The track title of a file.
pub fn title_from_path(path: &str) -> (r: String)
    ensures
        r@ == stem_title(path_stem(path@)),
{
    let stem: Vec<char> = match paths::path_file_name(&text::characters(path)) {
        Some(name) => paths::stem_of(&name),
        None => Vec::new(),
    };
    let start: usize = if stem.len() >= 3 && (stem[0] == 'B' || stem[0] == 'b') && (
    stem[1] == 'G' || stem[1] == 'g') && (stem[2] == 'M' || stem[2] == 'm') {
        3
    } else {
        0
    };
    let rest = text::slice_of(&stem, start, stem.len());
    proof {
        assert(rest@ =~= (if has_track_prefix(stem@) {
            stem@.skip(3)
        } else {
            stem@
        }));
    }
    let bare = text::without_start(&rest, CharClass::TitleLead);
    let lowered_name = text::from_characters(&bare).as_str().to_lowercase();
    let lowered_stem = text::from_characters(&stem).as_str().to_lowercase();
    title_from_lowered(lowered_name.as_str(), lowered_stem.as_str())
}

// ---------------------------------------------------------------------------
// File stems of videos
// ---------------------------------------------------------------------------

/// Whether a character may stand in the name of a video file.
pub open spec fn allowed(c: char) -> bool {
    &&& !text::control(c)
    &&& c != '<' && c != '>' && c != ':' && c != '"' && c != '/' && c != '\\' && c != '|' && c != '?'
        && c != '*'
}

/// The file stem for a title: its allowed characters, single-spaced, without
/// spaces and dots at either end; `untitled` where nothing is left.
pub open spec fn video_stem(title: Seq<char>) -> Seq<char> {
    let stem = text::trim(
        text::single_spaced(title.filter(|c: char| allowed(c))),
        CharClass::StemEdge,
    );
    if stem.len() == 0 {
        "untitled"@
    } else {
        stem
    }
}

/// The file stem for the video of a title.
pub fn safe_video_stem(title: &str) -> (r: String)
    ensures
        r@ == video_stem(title@),
{
    let all = text::characters(title);
    let mut filtered: Vec<char> = Vec::new();
    let ghost keep = |c: char| allowed(c);
    for i in 0..all.len()
        invariant
            keep == (|c: char| allowed(c)),
            filtered@ == all@.take(i as int).filter(keep),
    {
        let c: char = all[i];
        if !text::is_control(c) && c != '<' && c != '>' && c != ':' && c != '"' && c != '/' && c
            != '\\' && c != '|' && c != '?' && c != '*' {
            filtered.push(c);
        }
        proof {
            reveal(Seq::filter);
            assert(all@.take(i + 1).drop_last() =~= all@.take(i as int));
        }
    }
    proof {
        assert(all@.take(all@.len() as int) =~= all@);
    }
    let stem = text::trimmed(&text::to_single_spaced(&filtered), CharClass::StemEdge);
    if stem.len() == 0 {
        "untitled".to_owned()
    } else {
        text::from_characters(&stem)
    }
}

// ---------------------------------------------------------------------------
// Laws
// ---------------------------------------------------------------------------

/// Whether a text can be the stem of a video file: not empty, of allowed
/// characters only, words with single spaces between them, and with neither a
/// space nor a dot at its ends.
pub open spec fn usable_stem(stem: Seq<char>) -> bool {
    &&& stem.len() > 0
    &&& forall|i: int| 0 <= i < stem.len() ==> allowed(#[trigger] stem[i])
    &&& text::tidy(stem)
    &&& !CharClass::StemEdge.holds(stem[0])
    &&& !CharClass::StemEdge.holds(stem.last())
}

/// Every title gives a usable file stem.
pub proof fn law_stem_is_usable(title: Seq<char>)
    ensures
        usable_stem(video_stem(title)),
{
    let keep = |c: char| allowed(c);
    let filtered = title.filter(keep);
    let spaced = text::single_spaced(filtered);
    let stem = text::trim(spaced, CharClass::StemEdge);
    text::lemma_single_spaced(filtered);
    text::lemma_trim(spaced, CharClass::StemEdge);
    let (start, end) = choose|start: int, end: int|
        0 <= start <= end <= spaced.len() && stem == #[trigger] spaced.subrange(start, end);
    if stem.len() == 0 {
        reveal_strlit("untitled");
        let untitled = "untitled"@;
        assert(forall|i: int| 0 <= i < untitled.len() ==> allowed(#[trigger] untitled[i]));
        assert(forall|i: int|
            0 <= i < untitled.len() ==> !text::whitespace(#[trigger] untitled[i]));
    } else {
        assert forall|i: int| 0 <= i < stem.len() implies allowed(#[trigger] stem[i]) by {
            assert(stem[i] == spaced[start + i]);
            if spaced[start + i] != ' ' {
                assert(filtered.contains(spaced[start + i]));
                lemma_filter_keeps(title, keep, spaced[start + i]);
            }
        }
        assert forall|i: int| 0 <= i < stem.len() && text::whitespace(#[trigger] stem[i]) implies {
            &&& stem[i] == ' '
            &&& i > 0
            &&& !text::whitespace(stem[i - 1])
        } by {
            assert(stem[i] == spaced[start + i]);
            assert(spaced[start + i] == ' ');
            if i > 0 {
                assert(stem[i - 1] == spaced[start + i - 1]);
            }
        }
        if text::whitespace(stem.last()) {
            assert(stem.last() == stem[stem.len() - 1]);
            assert(stem[stem.len() - 1] == ' ');
        }
    }
}

/// The file stem of a usable stem is that stem.
pub proof fn law_usable_stem_is_kept(stem: Seq<char>)
    requires
        usable_stem(stem),
    ensures
        video_stem(stem) == stem,
{
    let keep = |c: char| allowed(c);
    lemma_filter_all(stem, keep);
    text::lemma_evenly_spaced_fixed(stem);
    assert(text::trim_start(stem, CharClass::StemEdge) == stem);
    assert(text::trim_end(stem, CharClass::StemEdge) == stem);
}

/// Making a file stem twice is making it once.
pub proof fn law_stem_is_stable(title: Seq<char>)
    ensures
        video_stem(video_stem(title)) == video_stem(title),
{
    law_stem_is_usable(title);
    law_usable_stem_is_kept(video_stem(title));
}

/// A title that is made of words is those words with single spaces between
/// them; only where no word is left is it the stem in lower case.
pub proof fn law_title_is_tidy(stem: Seq<char>)
    ensures
        text::tidy(stem_title(stem)) && stem_title(stem).len() > 0 || stem_title(stem)
            == text::lowercase(stem),
{
    text::lemma_single_spaced(underscores_spaced(text::lowercase(bare_name(stem))));
}

/// What a filter keeps, it accepts.
proof fn lemma_filter_keeps(items: Seq<char>, keep: spec_fn(char) -> bool, item: char)
    requires
        items.filter(keep).contains(item),
    ensures
        keep(item),
    decreases items.len(),
{
    reveal(Seq::filter);
    if items.len() > 0 {
        let rest = items.drop_last().filter(keep);
        if rest.contains(item) {
            lemma_filter_keeps(items.drop_last(), keep, item);
        } else {
            let i = choose|i: int|
                0 <= i < items.filter(keep).len() && items.filter(keep)[i] == item;
            if i < rest.len() {
                assert(rest[i] == item);
            }
        }
    }
}

/// A filter that accepts every item keeps them all.
proof fn lemma_filter_all(items: Seq<char>, keep: spec_fn(char) -> bool)
    requires
        forall|i: int| 0 <= i < items.len() ==> keep(#[trigger] items[i]),
    ensures
        items.filter(keep) == items,
    decreases items.len(),
{
    reveal(Seq::filter);
    if items.len() > 0 {
        lemma_filter_all(items.drop_last(), keep);
        assert(keep(items[items.len() - 1]));
        assert(items.drop_last().push(items.last()) =~= items);
    } else {
        assert(items.filter(keep) =~= items);
    }
}

/// A file is sorted by its name in lower case.
pub proof fn law_file_is_sorted_by_its_name(
    above: Seq<char>,
    name: Seq<char>,
    path: &str,
    r: String,
)
    requires
        paths::folder(above),
        paths::plain_name(name),
        path@ == above + name,
        call_ensures(sort_name, (path,), r),
    ensures
        r@ == text::lowercase(name),
{
    paths::law_file_name_is_the_last_name(above, name);
}

/// Whether a character separates the prefix of a file name from what follows it.
pub open spec fn separates(c: char) -> bool {
    c == '_' || c == ' ' || c == '-'
}

/// The title of a file is made of its stem. The prefix `BGM`, in small or capital
/// letters, and the underscores, spaces and hyphens at the start are left out.
pub proof fn law_title_leaves_out_the_prefix(
    above: Seq<char>,
    prefix: Seq<char>,
    separators: Seq<char>,
    rest: Seq<char>,
    ending: Seq<char>,
    path: &str,
    name: &str,
    stem: &str,
    r: String,
    title: String,
)
    requires
        paths::folder(above),
        (prefix + separators + rest).len() > 0,
        ending.len() > 0,
        !(prefix + separators + rest).contains('/'),
        !ending.contains('/'),
        !ending.contains('.'),
        paths::spelled(prefix, "bgm"@) || prefix.len() == 0 && forall|k: int|
            0 <= k <= (separators + rest).len() ==> !paths::spelled(
                #[trigger] (separators + rest).take(k),
                "bgm"@,
            ),
        forall|i: int| 0 <= i < separators.len() ==> separates(#[trigger] separators[i]),
        rest.len() > 0 ==> !separates(rest[0]),
        path@ == above + ((prefix + separators + rest).push('.') + ending),
        name@ == text::lowercase(rest),
        stem@ == text::lowercase(prefix + separators + rest),
        call_ensures(title_from_path, (path,), r),
        call_ensures(title_from_lowered, (name, stem), title),
    ensures
        r@ == title@,
{
    let whole = prefix + separators + rest;
    let file = whole.push('.') + ending;
    assert forall|i: int| 0 <= i < file.len() implies #[trigger] file[i] != '/' by {
        if i < whole.len() {
            assert(whole.contains(whole[i]));
        } else if i > whole.len() {
            assert(ending.contains(ending[i - whole.len() - 1]));
        }
    }
    paths::law_file_name_is_the_last_name(above, file);
    paths::law_name_is_stem_and_extension(whole, ending);
    reveal_strlit("bgm");
    assert("bgm"@.len() == 3 && "bgm"@[0] == 'b' && "bgm"@[1] == 'g' && "bgm"@[2] == 'm');
    let inner = separators + rest;
    assert forall|i: int| 0 <= i < separators.len() implies CharClass::TitleLead.holds(
        #[trigger] separators[i],
    ) by {
        assert(separates(separators[i]));
    }
    text::lemma_lead_is_trimmed(separators, rest, CharClass::TitleLead);
    if paths::spelled(prefix, "bgm"@) {
        assert(whole[0] == prefix[0] && whole[1] == prefix[1] && whole[2] == prefix[2]);
        assert(prefix[0] == 'b' || prefix[0] as int == 66);
        assert(prefix[1] == 'g' || prefix[1] as int == 71);
        assert(prefix[2] == 'm' || prefix[2] as int == 77);
        assert(has_track_prefix(whole));
        assert(whole.skip(3) =~= inner);
    } else {
        assert(whole =~= inner);
        if has_track_prefix(whole) {
            let start = inner.take(3);
            assert(start[0] == inner[0] && start[1] == inner[1] && start[2] == inner[2]);
            assert(paths::spelled(start, "bgm"@));
        }
    }
}

/// Whether a text has a character that is neither an underscore nor white space.
pub open spec fn has_title_words(text: Seq<char>) -> bool {
    exists|i: int| 0 <= i < text.len() && #[trigger] text[i] != '_' && !text::whitespace(text[i])
}

/// A text with underscores for spaces has the same words.
proof fn lemma_title_words(text: Seq<char>)
    ensures
        text::has_words(underscores_spaced(text)) == has_title_words(text),
{
    let plain = underscores_spaced(text);
    if text::has_words(plain) {
        let i = choose|i: int| 0 <= i < plain.len() && !text::whitespace(#[trigger] plain[i]);
        assert(text[i] != '_' && !text::whitespace(text[i]));
    }
    if has_title_words(text) {
        let i = choose|i: int|
            0 <= i < text.len() && #[trigger] text[i] != '_' && !text::whitespace(text[i]);
        assert(plain[i] == text[i]);
    }
}

/// A word is its own title. What stands on either side of an underscore or of white
/// space gives its own words, with one space between them. Where there are no words,
/// the title is the stem.
pub proof fn law_title_is_the_words_of_the_name(
    c: char,
    a: &str,
    b: &str,
    whole: &str,
    stem: &str,
    ra: String,
    rb: String,
    r: String,
)
    requires
        c == '_' || text::whitespace(c),
        whole@ == a@.push(c) + b@,
        call_ensures(title_from_lowered, (a, stem), ra),
        call_ensures(title_from_lowered, (b, stem), rb),
        call_ensures(title_from_lowered, (whole, stem), r),
    ensures
        text::word(a@) && !a@.contains('_') ==> ra@ == a@,
        !has_title_words(a@) ==> ra@ == stem@ && r@ == rb@,
        !has_title_words(b@) ==> r@ == ra@,
        has_title_words(a@) && has_title_words(b@) ==> r@ == ra@.push(' ') + rb@,
{
    let (x, y) = (underscores_spaced(a@), underscores_spaced(b@));
    let mark = if c == '_' {
        ' '
    } else {
        c
    };
    assert(underscores_spaced(whole@) =~= x.push(mark) + y);
    text::law_white_space_becomes_one_space(x, mark, y);
    lemma_title_words(a@);
    lemma_title_words(b@);
    text::lemma_has_words(x);
    text::lemma_has_words(y);
    if text::word(a@) && !a@.contains('_') {
        assert forall|i: int| 0 <= i < a@.len() implies a@[i] == #[trigger] x[i] by {
            assert(a@.contains(a@[i]));
        }
        assert(x =~= a@);
        assert(!text::whitespace(a@[0]));
    }
}

/// Whether a character is left out of file names: a control character, or one of nine
/// that some systems do not take.
pub open spec fn forbidden(c: char) -> bool {
    ||| (c as int) < 32
    ||| 127 <= (c as int) < 160
    ||| "<>:\"/\\|?*"@.contains(c)
}

/// The characters that are not allowed are those that are forbidden.
proof fn lemma_forbidden(c: char)
    ensures
        allowed(c) == !forbidden(c),
{
    reveal_strlit("<>:\"/\\|?*");
    let nine = "<>:\"/\\|?*"@;
    assert(nine.len() == 9);
    assert(nine[0] == '<' && nine[1] == '>' && nine[2] == ':' && nine[3] == '"' && nine[4] == '/'
        && nine[5] == '\\' && nine[6] == '|' && nine[7] == '?' && nine[8] == '*');
    if nine.contains(c) {
        let i = choose|i: int| 0 <= i < nine.len() && nine[i] == c;
        assert(!allowed(c));
    }
}

/// A forbidden character makes no difference to the stem of a video file.
pub proof fn law_forbidden_characters_are_left_out(
    a: Seq<char>,
    c: char,
    b: Seq<char>,
    title: &str,
    shorter: &str,
    r: String,
    s: String,
)
    requires
        forbidden(c),
        title@ == a.push(c) + b,
        shorter@ == a + b,
        call_ensures(safe_video_stem, (title,), r),
        call_ensures(safe_video_stem, (shorter,), s),
    ensures
        r@ == s@,
{
    let keep = |c: char| allowed(c);
    lemma_forbidden(c);
    Seq::filter_distributes_over_add(a.push(c), b, keep);
    Seq::filter_distributes_over_add(a, b, keep);
    assert(a.push(c).filter(keep) == a.filter(keep)) by {
        reveal(Seq::filter);
        assert(a.push(c).drop_last() =~= a);
    }
}

/// White space that is no control character, and more than one space, are as good as
/// one space.
pub proof fn law_white_space_in_titles_is_one_space(
    a: Seq<char>,
    c: char,
    b: Seq<char>,
    title: &str,
    doubled: &str,
    plain: &str,
    r: String,
    s: String,
    t: String,
)
    requires
        text::whitespace(c),
        !forbidden(c),
        title@ == a.push(c) + b,
        doubled@ == a.push(' ').push(' ') + b,
        plain@ == a.push(' ') + b,
        call_ensures(safe_video_stem, (title,), r),
        call_ensures(safe_video_stem, (doubled,), s),
        call_ensures(safe_video_stem, (plain,), t),
    ensures
        r@ == t@,
        s@ == t@,
{
    let keep = |c: char| allowed(c);
    lemma_forbidden(c);
    let (x, y) = (a.filter(keep), b.filter(keep));
    lemma_filter_push(a, c, keep);
    lemma_filter_push(a, ' ', keep);
    lemma_filter_push(a.push(' '), ' ', keep);
    Seq::filter_distributes_over_add(a.push(c), b, keep);
    Seq::filter_distributes_over_add(a.push(' '), b, keep);
    Seq::filter_distributes_over_add(a.push(' ').push(' '), b, keep);
    text::law_white_space_becomes_one_space(x, c, y);
    text::law_white_space_becomes_one_space(x, ' ', y);
    text::law_white_space_becomes_one_space(x, ' ', Seq::empty());
    text::law_white_space_becomes_one_space(x.push(' '), ' ', y);
    assert(x.push(' ') + Seq::empty() =~= x.push(' '));
    text::lemma_has_words(x);
    text::lemma_has_words(x.push(' '));
}

/// A filter keeps an item behind the others where it accepts it.
proof fn lemma_filter_push(items: Seq<char>, item: char, keep: spec_fn(char) -> bool)
    requires
        keep(item),
    ensures
        items.push(item).filter(keep) == items.filter(keep).push(item),
{
    reveal(Seq::filter);
    assert(items.push(item).drop_last() =~= items);
}

/// A title without forbidden characters whose words have single spaces between them is
/// kept from its first to its last character that is neither a space nor a dot. Where
/// there is no such character, the stem is `untitled`.
pub proof fn law_spaces_and_dots_at_the_ends_are_left_out(title: &str, r: String)
    requires
        forall|i: int| 0 <= i < title@.len() ==> !forbidden(#[trigger] title@[i]),
        text::tidy(title@),
        call_ensures(safe_video_stem, (title,), r),
    ensures
        (forall|i: int| 0 <= i < title@.len() ==> title@[i] == ' ' || title@[i] == '.') ==> r@
            == "untitled"@,
        (exists|i: int| 0 <= i < title@.len() && title@[i] != ' ' && title@[i] != '.') ==> exists|
            start: int,
            end: int,
        |
            {
                &&& 0 <= start < end <= title@.len()
                &&& r@ == #[trigger] title@.subrange(start, end)
                &&& title@[start] != ' ' && title@[start] != '.'
                &&& title@[end - 1] != ' ' && title@[end - 1] != '.'
                &&& forall|i: int|
                    0 <= i < start || end <= i < title@.len() ==> title@[i] == ' ' || title@[i]
                        == '.'
            },
{
    let keep = |c: char| allowed(c);
    let all = title@;
    assert forall|i: int| 0 <= i < all.len() implies keep(#[trigger] all[i]) by {
        lemma_forbidden(all[i]);
    }
    lemma_filter_all(all, keep);
    text::lemma_evenly_spaced_fixed(all);
    text::law_trimming_takes_the_ends_only(all, CharClass::StemEdge);
    let (start, end) = choose|start: int, end: int|
        {
            &&& 0 <= start <= end <= all.len()
            &&& text::trim(all, CharClass::StemEdge) == #[trigger] all.subrange(start, end)
            &&& forall|i: int|
                0 <= i < start || end <= i < all.len() ==> CharClass::StemEdge.holds(
                    #[trigger] all[i],
                )
            &&& start < end ==> !CharClass::StemEdge.holds(all[start])
                && !CharClass::StemEdge.holds(all[end - 1])
        };
    assert(all.subrange(start, end).len() == end - start);
    if start < end {
        assert(r@ == all.subrange(start, end));
        assert(all[start] != ' ' && all[start] != '.');
    }
}

} // verus!
