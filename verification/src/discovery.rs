//! Which of the files found are tracks, in what order they come and what their
//! videos are called.
use vstd::hash_set::StringHashSet;
use vstd::prelude::*;

use crate::number;
use crate::order;
use crate::paths;
use crate::text;
use crate::titles;

verus! {

/// A regular file that was found.
#[derive(Clone, Debug)]
pub struct SourceFile {
    /// The components of its path, joined with `/`. What is not Unicode text in
    /// them is written with replacement characters.
    pub path: String,
    /// The components of its path as the system encodes them, joined with `/`.
    pub bytes: Vec<u8>,
    /// Whether its file name is Unicode text as it stands.
    pub readable: bool,
}

/// What stands at the path that is to be rendered.
#[derive(Clone, Debug)]
pub enum ScannedInput {
    /// One file.
    File(SourceFile),
    /// A directory, with every regular file in it and in the directories below.
    Directory(Vec<SourceFile>),
    /// Neither.
    Missing,
}

/// One video to render.
pub struct Track {
    /// The position of the audio file among the scanned files.
    pub source: usize,
    /// The name of the video file.
    pub output: String,
    /// The title.
    pub title: String,
}

/// Why no tracks could be listed.
pub enum DiscoveryError {
    /// The file is no audio file.
    UnsupportedExtension,
    /// There is neither a file nor a directory.
    MissingInput,
    /// All numbered names for a title are taken.
    NamesExhausted,
}

impl SourceFile {
    /// What the file is sorted by first.
    pub open spec fn name_key(self) -> Seq<u32> {
        order::code_points(
            if self.readable {
                titles::sort_key(self.path@)
            } else {
                Seq::empty()
            },
        )
    }

    /// What the file is sorted by where names are equal.
    pub open spec fn path_key(self) -> Seq<u32> {
        order::path_ranks(self.bytes@)
    }

    /// The track title of the file.
    pub open spec fn spec_title(self) -> Seq<char> {
        titles::stem_title(
            if self.readable {
                titles::path_stem(self.path@)
            } else {
                Seq::empty()
            },
        )
    }

    /// The track title of the file.
    pub fn title(&self) -> (r: String)
        ensures
            r@ == self.spec_title(),
    {
        if self.readable {
            titles::title_from_path(self.path.as_str())
        } else {
            proof {
                reveal_strlit("");
                assert(""@ =~= Seq::empty());
                assert(text::pieces(""@, text::CharClass::Slash) =~= Seq::empty());
            }
            titles::title_from_path("")
        }
    }
}

impl ScannedInput {
    /// The scanned files.
    pub open spec fn files(self) -> Seq<SourceFile> {
        match self {
            ScannedInput::File(file) => seq![file],
            ScannedInput::Directory(files) => files@,
            ScannedInput::Missing => Seq::empty(),
        }
    }
}

/// Whether file `i` comes before file `j`: by name, then by path, then as
/// listed.
pub open spec fn file_before(files: Seq<SourceFile>, i: int, j: int) -> bool {
    let (a, b) = (files[i], files[j]);
    if a.name_key() != b.name_key() {
        order::before(a.name_key(), b.name_key())
    } else if a.path_key() != b.path_key() {
        order::before(a.path_key(), b.path_key())
    } else {
        i < j
    }
}

/// Whether `positions` lists the audio files, each once, in order.
pub open spec fn lists_audio(files: Seq<SourceFile>, positions: Seq<int>) -> bool {
    &&& forall|k: int|
        0 <= k < positions.len() ==> 0 <= #[trigger] positions[k] < files.len() && paths::audio(
            files[positions[k]].path@,
        )
    &&& forall|p: int|
        0 <= p < files.len() && paths::audio((#[trigger] files[p]).path@) ==> positions.contains(p)
    &&& forall|k: int, l: int|
        0 <= k < l < positions.len() ==> file_before(
            files,
            #[trigger] positions[k],
            #[trigger] positions[l],
        )
}

/// The positions that a list of machine integers stands for.
pub open spec fn as_positions(list: Seq<usize>) -> Seq<int> {
    list.map_values(|p: usize| p as int)
}

/// The order of files is transitive.
proof fn lemma_file_before_transitive(files: Seq<SourceFile>, i: int, j: int, k: int)
    requires
        file_before(files, i, j),
        file_before(files, j, k),
    ensures
        file_before(files, i, k),
{
    let (a, b, c) = (files[i], files[j], files[k]);
    order::lemma_before_irreflexive(a.name_key());
    order::lemma_before_irreflexive(b.name_key());
    order::lemma_before_irreflexive(a.path_key());
    order::lemma_before_irreflexive(b.path_key());
    if a.name_key() != b.name_key() && b.name_key() != c.name_key() {
        order::lemma_before_transitive(a.name_key(), b.name_key(), c.name_key());
        order::lemma_before_irreflexive(c.name_key());
    }
    if a.path_key() != b.path_key() && b.path_key() != c.path_key() && a.name_key() == b.name_key()
        && b.name_key() == c.name_key() {
        order::lemma_before_transitive(a.path_key(), b.path_key(), c.path_key());
        order::lemma_before_irreflexive(c.path_key());
    }
}

/// Of two different positions one comes before the other.
proof fn lemma_file_before_total(files: Seq<SourceFile>, i: int, j: int)
    requires
        i != j,
    ensures
        file_before(files, i, j) || file_before(files, j, i),
{
    order::lemma_before_total(files[i].name_key(), files[j].name_key());
    order::lemma_before_total(files[i].path_key(), files[j].path_key());
}

/// No position comes before itself.
proof fn lemma_file_before_irreflexive(files: Seq<SourceFile>, i: int)
    ensures
        !file_before(files, i, i),
{
}

/// The sort keys of one file.
struct SortKeys {
    name: Vec<u32>,
    path: Vec<u32>,
}

/// The sort keys of a file.
fn sort_keys(file: &SourceFile) -> (r: SortKeys)
    ensures
        r.name@ == file.name_key(),
        r.path@ == file.path_key(),
{
    let name: Vec<char> = if file.readable {
        text::characters(titles::sort_name(file.path.as_str()).as_str())
    } else {
        Vec::new()
    };
    proof {
        if !file.readable {
            assert(name@ =~= Seq::empty());
        }
    }
    SortKeys {
        name: order::to_code_points(&name),
        path: order::to_path_ranks(&file.bytes),
    }
}

/// Whether two keys are equal.
fn same_key(a: &Vec<u32>, b: &Vec<u32>) -> (r: bool)
    ensures
        r == (a@ == b@),
{
    proof {
        order::lemma_before_total(a@, b@);
        order::lemma_before_irreflexive(a@);
    }
    !order::is_before(a, b) && !order::is_before(b, a)
}

/// Whether the file at `i` comes before the file at `j`.
fn key_before(keys: &Vec<SortKeys>, i: usize, j: usize, Ghost(files): Ghost<Seq<SourceFile>>) -> (r:
    bool)
    requires
        keys@.len() == files.len(),
        i < files.len(),
        j < files.len(),
        forall|p: int|
            0 <= p < files.len() ==> (#[trigger] keys@[p]).name@ == files[p].name_key()
                && keys@[p].path@ == files[p].path_key(),
    ensures
        r == file_before(files, i as int, j as int),
{
    if !same_key(&keys[i].name, &keys[j].name) {
        order::is_before(&keys[i].name, &keys[j].name)
    } else if !same_key(&keys[i].path, &keys[j].path) {
        order::is_before(&keys[i].path, &keys[j].path)
    } else {
        i < j
    }
}

/// The positions of the audio files among `files`, in order.
pub fn audio_order(files: &Vec<SourceFile>) -> (r: Vec<usize>)
    ensures
        lists_audio(files@, as_positions(r@)),
{
    let mut keys: Vec<SortKeys> = Vec::new();
    for i in 0..files.len()
        invariant
            keys@.len() == i,
            forall|p: int|
                0 <= p < i ==> (#[trigger] keys@[p]).name@ == files@[p].name_key()
                    && keys@[p].path@ == files@[p].path_key(),
    {
        keys.push(sort_keys(&files[i]));
    }
    let mut sorted: Vec<usize> = Vec::new();
    for i in 0..files.len()
        invariant
            keys@.len() == files@.len(),
            forall|p: int|
                0 <= p < files@.len() ==> (#[trigger] keys@[p]).name@ == files@[p].name_key()
                    && keys@[p].path@ == files@[p].path_key(),
            forall|k: int|
                0 <= k < sorted@.len() ==> #[trigger] sorted@[k] < i && paths::audio(
                    files@[sorted@[k] as int].path@,
                ),
            forall|p: int|
                0 <= p < i && paths::audio((#[trigger] files@[p]).path@) ==> sorted@.contains(p as usize),
            forall|k: int, l: int|
                0 <= k < l < sorted@.len() ==> file_before(
                    files@,
                    #[trigger] sorted@[k] as int,
                    #[trigger] sorted@[l] as int,
                ),
    {
        if paths::is_audio(files[i].path.as_str()) {
            let mut slot: usize = sorted.len();
            while slot > 0 && key_before(&keys, i, sorted[slot - 1], Ghost(files@))
                invariant
                    i < files@.len(),
                    keys@.len() == files@.len(),
                    forall|p: int|
                        0 <= p < files@.len() ==> (#[trigger] keys@[p]).name@
                            == files@[p].name_key() && keys@[p].path@ == files@[p].path_key(),
                    forall|k: int| 0 <= k < sorted@.len() ==> #[trigger] sorted@[k] < i,
                    slot <= sorted@.len(),
                    forall|k: int|
                        slot <= k < sorted@.len() ==> file_before(
                            files@,
                            i as int,
                            #[trigger] sorted@[k] as int,
                        ),
                decreases slot,
            {
                slot -= 1;
            }
            let ghost old_sorted = sorted@;
            sorted.insert(slot, i);
            proof {
                assert(sorted@ == old_sorted.insert(slot as int, i));
                if slot > 0 {
                    let last = old_sorted[slot - 1] as int;
                    lemma_file_before_total(files@, i as int, last);
                    assert forall|k: int| 0 <= k < slot implies file_before(
                        files@,
                        #[trigger] old_sorted[k] as int,
                        i as int,
                    ) by {
                        if k < slot - 1 {
                            lemma_file_before_transitive(
                                files@,
                                old_sorted[k] as int,
                                last,
                                i as int,
                            );
                        }
                    }
                }
                assert forall|k: int, l: int| 0 <= k < l < sorted@.len() implies file_before(
                    files@,
                    #[trigger] sorted@[k] as int,
                    #[trigger] sorted@[l] as int,
                ) by {
                    if k < slot && l < slot {
                        assert(sorted@[k] == old_sorted[k] && sorted@[l] == old_sorted[l]);
                    } else if k < slot && l > slot {
                        assert(sorted@[k] == old_sorted[k] && sorted@[l] == old_sorted[l - 1]);
                    } else if k > slot {
                        assert(sorted@[k] == old_sorted[k - 1] && sorted@[l] == old_sorted[l - 1]);
                    } else if k == slot {
                        assert(sorted@[l] == old_sorted[l - 1]);
                    }
                }
                assert forall|p: int|
                    0 <= p < i + 1 && paths::audio((#[trigger] files@[p]).path@) implies sorted@.contains(
                    p as usize,
                ) by {
                    if p == i {
                        assert(sorted@[slot as int] == i);
                    } else {
                        let k = choose|k: int|
                            0 <= k < old_sorted.len() && old_sorted[k] == p as usize;
                        if k < slot {
                            assert(sorted@[k] == p as usize);
                        } else {
                            assert(sorted@[k + 1] == p as usize);
                        }
                    }
                }
            }
        }
    }
    proof {
        let positions = as_positions(sorted@);
        assert forall|p: int|
            0 <= p < files@.len() && paths::audio((#[trigger] files@[p]).path@) implies positions.contains(
            p,
        ) by {
            let k = choose|k: int| 0 <= k < sorted@.len() && sorted@[k] == p as usize;
            assert(positions[k] == p);
        }
    }
    sorted
}

// ---------------------------------------------------------------------------
// Tracks
// ---------------------------------------------------------------------------

/// The last number that is tried for a file name.
pub const LAST_NUMBER: u64 = 2_147_483_646;

/// The `number`-th name for a stem: the stem itself, then the stem followed by
/// 2, by 3 and so on.
pub open spec fn numbered(stem: Seq<char>, number: int) -> Seq<char> {
    if number <= 1 {
        stem
    } else {
        stem.push(' ') + number::decimal(number as nat)
    }
}

/// The first number from `number` on whose name is free, the case of letters
/// aside.
pub open spec fn free_number(stem: Seq<char>, taken: Set<Seq<char>>, number: int) -> Option<int>
    decreases LAST_NUMBER + 1 - number,
{
    if number > LAST_NUMBER {
        None
    } else if !taken.contains(text::lowercase(numbered(stem, number))) {
        Some(number)
    } else {
        free_number(stem, taken, number + 1)
    }
}

/// The lower-case forms of the given stems.
pub open spec fn taken_by(stems: Seq<Seq<char>>) -> Set<Seq<char>> {
    stems.map_values(|stem: Seq<char>| text::lowercase(stem)).to_set()
}

/// The stems with numbers added one after the other where a name is taken.
pub open spec fn told_apart(stems: Seq<Seq<char>>) -> Option<Seq<Seq<char>>>
    decreases stems.len(),
{
    if stems.len() == 0 {
        Some(Seq::empty())
    } else {
        match told_apart(stems.drop_last()) {
            Some(before) => match free_number(stems.last(), taken_by(before), 1) {
                Some(number) => Some(before.push(numbered(stems.last(), number))),
                None => None,
            },
            None => None,
        }
    }
}

/// The stems that the titles of the files at `positions` give.
pub open spec fn title_stems(files: Seq<SourceFile>, positions: Seq<int>) -> Seq<Seq<char>> {
    positions.map_values(|p: int| titles::video_stem(files[p].spec_title()))
}

/// The source positions of tracks.
pub open spec fn track_sources(tracks: Seq<Track>) -> Seq<int> {
    tracks.map_values(|track: Track| track.source as int)
}

/// Whether `tracks` are the tracks of the scanned files.
pub open spec fn tracks_of(files: Seq<SourceFile>, tracks: Seq<Track>) -> bool {
    &&& lists_audio(files, track_sources(tracks))
    &&& told_apart(title_stems(files, track_sources(tracks))) matches Some(stems)
        && stems.len() == tracks.len() && forall|k: int|
        0 <= k < tracks.len() ==> {
            &&& (#[trigger] tracks[k]).title@ == files[tracks[k].source as int].spec_title()
            &&& tracks[k].output@ == stems[k] + ".mp4"@
        }
}

/// Whether some track of the scanned files finds all its names taken.
pub open spec fn names_exhausted(files: Seq<SourceFile>) -> bool {
    exists|positions: Seq<int>| #[trigger]
        lists_audio(files, positions) && told_apart(title_stems(files, positions)) is None
}

/// Where the names of the first stems cannot be told apart, those of all cannot.
proof fn lemma_told_apart_prefix(stems: Seq<Seq<char>>, count: int)
    requires
        0 <= count <= stems.len(),
        told_apart(stems.take(count)) is None,
    ensures
        told_apart(stems) is None,
    decreases stems.len(),
{
    if count < stems.len() {
        assert(stems.drop_last().take(count) =~= stems.take(count));
        lemma_told_apart_prefix(stems.drop_last(), count);
    } else {
        assert(stems.take(count) =~= stems);
    }
}

/// The first numbered name for a stem that is free, which is then taken.
fn take_free_name(stem: &String, taken: &mut StringHashSet) -> (r: Option<String>)
    ensures
        match r {
            Some(name) => exists|number: int|
                {
                    &&& free_number(stem@, old(taken)@, 1) == Some(number)
                    &&& name@ == #[trigger] numbered(stem@, number)
                    &&& final(taken)@ == old(taken)@.insert(text::lowercase(name@))
                },
            None => free_number(stem@, old(taken)@, 1) is None && final(taken)@ == old(taken)@,
        },
{
    let mut name = stem.clone();
    let mut number: u64 = 1;
    while number <= LAST_NUMBER
        invariant
            1 <= number <= LAST_NUMBER + 1,
            taken@ == old(taken)@,
            number <= LAST_NUMBER ==> name@ == numbered(stem@, number as int),
            free_number(stem@, taken@, 1) == free_number(stem@, taken@, number as int),
        decreases LAST_NUMBER + 1 - number,
    {
        let lowered = name.as_str().to_lowercase();
        if !taken.contains(lowered.as_str()) {
            taken.insert(lowered);
            return Some(name);
        }
        number += 1;
        if number <= LAST_NUMBER {
            name = stem.clone();
            name.push(' ');
            let digits = number::decimal_text(number);
            name.append(digits.as_str());
        }
    }
    None
}

/// The tracks of the scanned input: one for each audio file, ordered by name.
pub fn discover_tracks(input: ScannedInput) -> (r: Result<Vec<Track>, DiscoveryError>)
    ensures
        match r {
            Ok(tracks) => tracks_of(input.files(), tracks@),
            Err(DiscoveryError::UnsupportedExtension) => input matches ScannedInput::File(file)
                && !paths::audio(file.path@),
            Err(DiscoveryError::MissingInput) => input is Missing,
            Err(DiscoveryError::NamesExhausted) => names_exhausted(input.files()),
        },
        input is Missing ==> r == Err::<Vec<Track>, _>(DiscoveryError::MissingInput),
        input matches ScannedInput::File(file) && !paths::audio(file.path@) ==> r == Err::<Vec<Track>, _>(
            DiscoveryError::UnsupportedExtension,
        ),
{
    match input {
        ScannedInput::File(file) => {
            if !paths::is_audio(file.path.as_str()) {
                return Err(DiscoveryError::UnsupportedExtension);
            }
            let files: Vec<SourceFile> = vec![file];
            proof {
                assert(files@ =~= seq![file]);
            }
            name_tracks(&files)
        },
        ScannedInput::Directory(files) => name_tracks(&files),
        ScannedInput::Missing => Err(DiscoveryError::MissingInput),
    }
}

/// The tracks of the given files.
fn name_tracks(files: &Vec<SourceFile>) -> (r: Result<Vec<Track>, DiscoveryError>)
    ensures
        match r {
            Ok(tracks) => tracks_of(files@, tracks@),
            Err(error) => error == DiscoveryError::NamesExhausted && names_exhausted(files@),
        },
{
    let sorted = audio_order(files);
    let ghost positions = as_positions(sorted@);
    let ghost stems = title_stems(files@, positions);
    let mut taken = StringHashSet::with_capacity(sorted.len());
    let mut tracks: Vec<Track> = Vec::new();
    let ghost mut names: Seq<Seq<char>> = Seq::empty();
    proof {
        assert(stems.take(0) =~= Seq::empty());
        assert(taken_by(names) =~= Set::empty());
    }
    for i in 0..sorted.len()
        invariant
            positions == as_positions(sorted@),
            stems == title_stems(files@, positions),
            lists_audio(files@, positions),
            told_apart(stems.take(i as int)) == Some(names),
            names.len() == i,
            taken@ == taken_by(names),
            tracks@.len() == i,
            forall|k: int|
                0 <= k < i ==> {
                    &&& (#[trigger] tracks@[k]).source == sorted@[k]
                    &&& tracks@[k].title@ == files@[sorted@[k] as int].spec_title()
                    &&& tracks@[k].output@ == names[k] + ".mp4"@
                },
    {
        let source: usize = sorted[i];
        proof {
            assert(positions[i as int] == source);
            assert(stems.take(i + 1).drop_last() =~= stems.take(i as int));
            assert(stems.take(i + 1).last() == titles::video_stem(files@[source as int].spec_title()));
        }
        let title = files[source].title();
        let stem = titles::safe_video_stem(title.as_str());
        match take_free_name(&stem, &mut taken) {
            Some(name) => {
                let ghost before = names;
                proof {
                    names = names.push(name@);
                    let lowered = |stem: Seq<char>| text::lowercase(stem);
                    assert(names.map_values(lowered) =~= before.map_values(lowered).push(
                        text::lowercase(name@),
                    ));
                    lemma_push_to_set(before.map_values(lowered), text::lowercase(name@));
                }
                let mut output = name;
                output.append(".mp4");
                tracks.push(Track { source, output, title });
            },
            None => {
                proof {
                    assert(told_apart(stems.take(i + 1)) is None);
                    lemma_told_apart_prefix(stems, i + 1);
                    assert(lists_audio(files@, positions));
                }
                return Err(DiscoveryError::NamesExhausted);
            },
        }
    }
    proof {
        assert(stems.take(sorted@.len() as int) =~= stems);
        assert(track_sources(tracks@) =~= positions);
    }
    Ok(tracks)
}

/// The items of a sequence after a push.
proof fn lemma_push_to_set(items: Seq<Seq<char>>, item: Seq<char>)
    ensures
        items.push(item).to_set() == items.to_set().insert(item),
{
    assert forall|x: Seq<char>| #[trigger]
        items.push(item).to_set().contains(x) == items.to_set().insert(item).contains(x) by {
        if items.contains(x) {
            let k = choose|k: int| 0 <= k < items.len() && items[k] == x;
            assert(items.push(item)[k] == x);
        }
        if x == item {
            assert(items.push(item)[items.len() as int] == x);
        }
        if items.push(item).contains(x) {
            let k = choose|k: int| 0 <= k < items.len() + 1 && items.push(item)[k] == x;
            if k < items.len() {
                assert(items[k] == x);
            }
        }
    }
    assert(items.push(item).to_set() =~= items.to_set().insert(item));
}

// ---------------------------------------------------------------------------
// Laws
// ---------------------------------------------------------------------------

/// No two of the names are equal, the case of letters aside.
pub open spec fn distinct_names(names: Seq<Seq<char>>) -> bool {
    forall|i: int, j: int|
        0 <= i < j < names.len() ==> text::lowercase(#[trigger] names[i]) != text::lowercase(
            #[trigger] names[j],
        )
}

/// A number that is found free names nothing that is taken, and no smaller
/// number does so either.
pub proof fn law_first_free_number(stem: Seq<char>, taken: Set<Seq<char>>, from: int)
    requires
        free_number(stem, taken, from) is Some,
    ensures
        from <= free_number(stem, taken, from)->0 <= LAST_NUMBER,
        !taken.contains(text::lowercase(numbered(stem, free_number(stem, taken, from)->0))),
        forall|n: int|
            from <= n < free_number(stem, taken, from)->0 ==> taken.contains(
                text::lowercase(#[trigger] numbered(stem, n)),
            ),
    decreases LAST_NUMBER + 1 - from,
{
    if taken.contains(text::lowercase(numbered(stem, from))) {
        law_first_free_number(stem, taken, from + 1);
    }
}

/// Names that were told apart are distinct, the case of letters aside.
pub proof fn law_names_are_distinct(stems: Seq<Seq<char>>)
    requires
        told_apart(stems) is Some,
    ensures
        distinct_names(told_apart(stems)->0),
    decreases stems.len(),
{
    if stems.len() > 0 {
        let before = told_apart(stems.drop_last())->0;
        let taken = taken_by(before);
        law_names_are_distinct(stems.drop_last());
        law_first_free_number(stems.last(), taken, 1);
        let names = told_apart(stems)->0;
        let lowered = |stem: Seq<char>| text::lowercase(stem);
        assert forall|i: int, j: int| 0 <= i < j < names.len() implies text::lowercase(
            #[trigger] names[i],
        ) != text::lowercase(#[trigger] names[j]) by {
            if j < before.len() {
                assert(names[i] == before[i] && names[j] == before[j]);
            } else {
                assert(before.map_values(lowered)[i] == text::lowercase(names[i]));
                assert(taken.contains(text::lowercase(names[i])));
            }
        }
    }
}

/// A stem whose name is still free keeps it: a number is added only where the
/// name is taken.
pub proof fn law_free_name_is_kept(stems: Seq<Seq<char>>)
    requires
        stems.len() > 0,
        told_apart(stems.drop_last()) is Some,
        !taken_by(told_apart(stems.drop_last())->0).contains(text::lowercase(stems.last())),
    ensures
        told_apart(stems) == Some(told_apart(stems.drop_last())->0.push(stems.last())),
{
}

/// No two tracks are given the same video file, the case of letters aside: the
/// names without `.mp4` are distinct.
pub proof fn law_outputs_are_distinct(files: Seq<SourceFile>, tracks: Seq<Track>)
    requires
        tracks_of(files, tracks),
    ensures
        forall|i: int, j: int|
            0 <= i < j < tracks.len() ==> (#[trigger] tracks[i]).output@ != (
            #[trigger] tracks[j]).output@,
        exists|names: Seq<Seq<char>>|
            names.len() == tracks.len() && #[trigger] distinct_names(names) && forall|k: int|
                0 <= k < tracks.len() ==> (#[trigger] tracks[k]).output@ == names[k] + ".mp4"@,
{
    let stems = title_stems(files, track_sources(tracks));
    let names = told_apart(stems)->0;
    law_names_are_distinct(stems);
    assert forall|i: int, j: int| 0 <= i < j < tracks.len() implies (#[trigger] tracks[i]).output@
        != (#[trigger] tracks[j]).output@ by {
        if tracks[i].output@ == tracks[j].output@ {
            let ending = ".mp4"@;
            let whole = tracks[i].output@;
            assert(names[i] =~= whole.take(whole.len() - ending.len()));
            assert(names[j] =~= whole.take(whole.len() - ending.len()));
        }
    }
}

/// The order of the tracks is determined: only one list of positions holds each
/// audio file once and in order.
pub proof fn law_order_is_determined(files: Seq<SourceFile>, p: Seq<int>, q: Seq<int>)
    requires
        lists_audio(files, p),
        lists_audio(files, q),
    ensures
        p == q,
{
    lemma_common_prefix(files, p, q, p.len() as int);
    lemma_common_prefix(files, q, p, q.len() as int);
    assert(p =~= q);
}

/// Two lists of the audio files agree on their first `count` positions.
proof fn lemma_common_prefix(files: Seq<SourceFile>, p: Seq<int>, q: Seq<int>, count: int)
    requires
        lists_audio(files, p),
        lists_audio(files, q),
        0 <= count <= p.len(),
    ensures
        count <= q.len(),
        forall|i: int| 0 <= i < count ==> #[trigger] p[i] == q[i],
    decreases count,
{
    if count > 0 {
        let k = count - 1;
        lemma_common_prefix(files, p, q, k);
        let x = p[k];
        assert(q.contains(x)) by {
            assert(paths::audio(files[x].path@));
        }
        let m = choose|m: int| 0 <= m < q.len() && q[m] == x;
        lemma_file_before_irreflexive(files, x);
        if m < k {
            assert(p[m] == x);
            assert(file_before(files, p[m], p[k]));
        }
        assert(m >= k);
        if m > k {
            let y = q[k];
            assert(file_before(files, q[k], q[m]));
            assert(p.contains(y)) by {
                assert(paths::audio(files[y].path@));
            }
            let n = choose|n: int| 0 <= n < p.len() && p[n] == y;
            if n < k {
                assert(q[n] == y);
                assert(file_before(files, q[n], q[k]));
                lemma_file_before_irreflexive(files, y);
            } else if n > k {
                assert(file_before(files, p[k], p[n]));
                lemma_file_before_transitive(files, x, y, x);
            }
        }
    }
}

/// Scanned input gives tracks exactly where it does not run out of names.
pub proof fn law_tracks_or_exhausted(files: Seq<SourceFile>, tracks: Seq<Track>)
    requires
        tracks_of(files, tracks),
    ensures
        !names_exhausted(files),
{
    if names_exhausted(files) {
        let positions = choose|positions: Seq<int>| #[trigger]
            lists_audio(files, positions) && told_apart(title_stems(files, positions)) is None;
        law_order_is_determined(files, positions, track_sources(tracks));
    }
}

/// A single file never runs out of names.
pub proof fn law_one_file_has_a_name(files: Seq<SourceFile>)
    requires
        files.len() <= 1,
    ensures
        !names_exhausted(files),
{
    if names_exhausted(files) {
        let positions = choose|positions: Seq<int>| #[trigger]
            lists_audio(files, positions) && told_apart(title_stems(files, positions)) is None;
        if positions.len() > 1 {
            assert(positions[0] == 0 && positions[1] == 0);
            assert(file_before(files, positions[0], positions[1]));
            lemma_file_before_irreflexive(files, 0);
        }
        let stems = title_stems(files, positions);
        if stems.len() == 1 {
            assert(stems.drop_last() =~= Seq::empty());
            assert(told_apart(stems.drop_last()) == Some(Seq::<Seq<char>>::empty()));
            assert(taken_by(Seq::empty()) =~= Set::empty());
        }
    }
}

/// Whether no two files have the same path.
pub open spec fn distinct_paths(files: Seq<SourceFile>) -> bool {
    forall|i: int, j: int|
        0 <= i < j < files.len() ==> (#[trigger] files[i]).bytes@ != (#[trigger] files[j]).bytes@
}

/// Whether two files are the same.
pub open spec fn same_file(a: SourceFile, b: SourceFile) -> bool {
    a.path@ == b.path@ && a.bytes@ == b.bytes@ && a.readable == b.readable
}

/// Whether a file is among others.
pub open spec fn among(files: Seq<SourceFile>, file: SourceFile) -> bool {
    exists|i: int| 0 <= i < files.len() && same_file(#[trigger] files[i], file)
}

/// Whether a file comes before another, whose path is different.
spec fn ahead(a: SourceFile, b: SourceFile) -> bool {
    if a.name_key() != b.name_key() {
        order::before(a.name_key(), b.name_key())
    } else {
        order::before(a.path_key(), b.path_key())
    }
}

/// The files at positions.
spec fn picked(files: Seq<SourceFile>, positions: Seq<int>) -> Seq<SourceFile> {
    positions.map_values(|p: int| files[p])
}

/// Whether files are those of the audio files of a listing, each once and in
/// order.
spec fn in_order(files: Seq<SourceFile>, list: Seq<SourceFile>) -> bool {
    &&& forall|f: SourceFile| #[trigger]
        among(list, f) <==> among(files, f) && paths::audio(f.path@)
    &&& forall|i: int, j: int|
        0 <= i < j < list.len() ==> ahead(#[trigger] list[i], #[trigger] list[j])
}

/// A listing of audio files gives them in order.
proof fn lemma_picked_in_order(files: Seq<SourceFile>, positions: Seq<int>)
    requires
        lists_audio(files, positions),
        distinct_paths(files),
    ensures
        in_order(files, picked(files, positions)),
{
    let list = picked(files, positions);
    assert forall|f: SourceFile| #[trigger] among(list, f) <==> among(files, f) && paths::audio(
        f.path@,
    ) by {
        if among(list, f) {
            let k = choose|k: int| 0 <= k < list.len() && same_file(#[trigger] list[k], f);
            assert(same_file(files[positions[k]], f));
        }
        if among(files, f) && paths::audio(f.path@) {
            let p = choose|p: int| 0 <= p < files.len() && same_file(#[trigger] files[p], f);
            assert(positions.contains(p));
            let k = choose|k: int| 0 <= k < positions.len() && positions[k] == p;
            assert(same_file(list[k], f));
        }
    }
    assert forall|i: int, j: int| 0 <= i < j < list.len() implies ahead(
        #[trigger] list[i],
        #[trigger] list[j],
    ) by {
        let (p, q) = (positions[i], positions[j]);
        assert(file_before(files, p, q));
        lemma_file_before_irreflexive(files, p);
        if p < q {
            assert(files[p].bytes@ != files[q].bytes@);
        } else {
            assert(files[q].bytes@ != files[p].bytes@);
        }
        if files[p].path_key() == files[q].path_key() {
            order::lemma_path_ranks_injective(files[p].bytes@, files[q].bytes@);
        }
    }
}

/// Two ordered lists of the same audio files agree on their first files.
proof fn lemma_same_picks(
    a: Seq<SourceFile>,
    b: Seq<SourceFile>,
    x: Seq<SourceFile>,
    y: Seq<SourceFile>,
    count: int,
)
    requires
        forall|f: SourceFile| #[trigger] among(a, f) <==> among(b, f),
        in_order(a, x),
        in_order(b, y),
        0 <= count <= x.len(),
    ensures
        count <= y.len(),
        forall|i: int| 0 <= i < count ==> same_file(#[trigger] x[i], y[i]),
    decreases count,
{
    if count > 0 {
        let k = count - 1;
        lemma_same_picks(a, b, x, y, k);
        let f = x[k];
        assert(same_file(x[k], f) && among(x, f));
        assert(among(y, f));
        let m = choose|m: int| 0 <= m < y.len() && same_file(#[trigger] y[m], f);
        lemma_ahead(f, f, f);
        if m < k {
            assert(ahead(x[m], x[k]));
        }
        if m > k {
            let g = y[k];
            assert(ahead(y[k], y[m]));
            assert(same_file(y[k], g) && among(y, g));
            assert(among(x, g));
            let n = choose|n: int| 0 <= n < x.len() && same_file(#[trigger] x[n], g);
            lemma_ahead(g, g, g);
            if n < k {
                assert(ahead(y[n], y[k]));
            } else if n > k {
                assert(ahead(x[k], x[n]));
                lemma_ahead(f, g, f);
            }
        }
    }
}

/// No file is ahead of itself, and being ahead is transitive.
proof fn lemma_ahead(a: SourceFile, b: SourceFile, c: SourceFile)
    ensures
        !ahead(a, a),
        ahead(a, b) && ahead(b, c) ==> ahead(a, c),
{
    order::lemma_before_irreflexive(a.name_key());
    order::lemma_before_irreflexive(a.path_key());
    order::lemma_before_irreflexive(b.name_key());
    if ahead(a, b) && ahead(b, c) {
        if a.name_key() != b.name_key() && b.name_key() != c.name_key() {
            order::lemma_before_transitive(a.name_key(), b.name_key(), c.name_key());
        }
        if a.name_key() == b.name_key() && b.name_key() == c.name_key() {
            order::lemma_before_transitive(a.path_key(), b.path_key(), c.path_key());
        }
    }
}

/// In which order the files were found does not matter: the tracks come in the
/// same order, with the same titles and the same video files.
pub proof fn law_scan_order_does_not_matter(
    a: Seq<SourceFile>,
    b: Seq<SourceFile>,
    s: Seq<Track>,
    t: Seq<Track>,
)
    requires
        distinct_paths(a),
        distinct_paths(b),
        forall|f: SourceFile| #[trigger] among(a, f) <==> among(b, f),
        tracks_of(a, s),
        tracks_of(b, t),
    ensures
        s.len() == t.len(),
        forall|k: int|
            0 <= k < s.len() ==> same_file(
                a[(#[trigger] s[k]).source as int],
                b[t[k].source as int],
            ) && s[k].title@ == t[k].title@ && s[k].output@ == t[k].output@,
{
    let (p, q) = (track_sources(s), track_sources(t));
    let (x, y) = (picked(a, p), picked(b, q));
    lemma_picked_in_order(a, p);
    lemma_picked_in_order(b, q);
    lemma_same_picks(a, b, x, y, x.len() as int);
    lemma_same_picks(b, a, y, x, y.len() as int);
    assert(title_stems(a, p) =~= title_stems(b, q)) by {
        assert forall|k: int| 0 <= k < p.len() implies title_stems(a, p)[k] == title_stems(
            b,
            q,
        )[k] by {
            assert(same_file(x[k], y[k]));
        }
    }
    assert forall|k: int| 0 <= k < s.len() implies same_file(
        a[(#[trigger] s[k]).source as int],
        b[t[k].source as int],
    ) && s[k].title@ == t[k].title@ && s[k].output@ == t[k].output@ by {
        assert(same_file(x[k], y[k]));
        assert(t[k].output@ == t[k].output@);
    }
}

/// Whether a file has a file name that is Unicode text, the one given.
pub open spec fn named(file: SourceFile, name: Seq<char>) -> bool {
    &&& file.readable
    &&& paths::plain_name(name)
    &&& exists|above: Seq<char>| paths::folder(above) && file.path@ == #[trigger] (above + name)
}

/// The name of a file is the one that it is sorted by, in lower case.
proof fn lemma_named(file: SourceFile, name: Seq<char>)
    requires
        named(file, name),
    ensures
        file.name_key() == order::code_points(text::lowercase(name)),
{
    let above = choose|above: Seq<char>|
        paths::folder(above) && file.path@ == #[trigger] (above + name);
    paths::law_file_name_is_the_last_name(above, name);
}

/// Of two files whose names in lower case differ, the one comes first whose name has
/// the smaller code point at the first place where they differ, or has ended there.
pub proof fn law_tracks_are_in_the_order_of_names(
    files: Vec<SourceFile>,
    tracks: Vec<Track>,
    i: int,
    j: int,
    a: Seq<char>,
    b: Seq<char>,
)
    requires
        call_ensures(discover_tracks, (ScannedInput::Directory(files),), Ok(tracks)),
        0 <= i < tracks@.len(),
        0 <= j < tracks@.len(),
        named(files@[tracks@[i].source as int], a),
        named(files@[tracks@[j].source as int], b),
        text::lowercase(a) != text::lowercase(b),
    ensures
        i < j <==> exists|k: int|
            order::texts_decided_at(text::lowercase(a), text::lowercase(b), k),
{
    let positions = track_sources(tracks@);
    let (p, q) = (positions[i], positions[j]);
    let (x, y) = (text::lowercase(a), text::lowercase(b));
    lemma_named(files@[p], a);
    lemma_named(files@[q], b);
    order::law_texts_are_in_dictionary_order(x, y);
    order::law_texts_are_in_dictionary_order(y, x);
    order::lemma_before_irreflexive(files@[p].name_key());
    if order::code_points(x) == order::code_points(y) {
        order::lemma_code_points_injective(x, y);
    }
    if i < j {
        assert(file_before(files@, positions[i], positions[j]));
    } else if j < i {
        assert(file_before(files@, positions[j], positions[i]));
        if file_before(files@, p, q) {
            lemma_file_before_transitive(files@, p, q, p);
            lemma_file_before_irreflexive(files@, p);
        }
    }
}

/// Whether the names of two files give no order: both have the same name in lower
/// case, or neither has one that is Unicode text.
pub open spec fn names_tie(file: SourceFile, other: SourceFile) -> bool {
    ||| !file.readable && !other.readable
    ||| exists|a: Seq<char>, b: Seq<char>| #[trigger]
        named(file, a) && #[trigger] named(other, b) && text::lowercase(a) == text::lowercase(b)
}

/// Where names give no order, the components of the paths do, compared byte by byte;
/// where these are equal too, files stay as they were found.
pub proof fn law_equal_names_are_in_the_order_of_paths(
    files: Vec<SourceFile>,
    tracks: Vec<Track>,
    i: int,
    j: int,
)
    requires
        call_ensures(discover_tracks, (ScannedInput::Directory(files),), Ok(tracks)),
        0 <= i < tracks@.len(),
        0 <= j < tracks@.len(),
        names_tie(files@[tracks@[i].source as int], files@[tracks@[j].source as int]),
    ensures
        files@[tracks@[i].source as int].bytes@ != files@[tracks@[j].source as int].bytes@ ==> (i
            < j <==> exists|k: int|
            order::paths_decided_at(
                files@[tracks@[i].source as int].bytes@,
                files@[tracks@[j].source as int].bytes@,
                k,
            )),
        files@[tracks@[i].source as int].bytes@ == files@[tracks@[j].source as int].bytes@ ==> (i
            < j <==> tracks@[i].source < tracks@[j].source),
{
    let positions = track_sources(tracks@);
    let (p, q) = (positions[i], positions[j]);
    let (f, g) = (files@[p], files@[q]);
    if f.readable || g.readable {
        let (a, b) = choose|a: Seq<char>, b: Seq<char>| #[trigger]
            named(f, a) && #[trigger] named(g, b) && text::lowercase(a) == text::lowercase(b);
        lemma_named(f, a);
        lemma_named(g, b);
    }
    assert(f.name_key() == g.name_key());
    order::law_paths_compare_by_components(f.bytes@, g.bytes@);
    order::lemma_before_irreflexive(f.path_key());
    if f.path_key() == g.path_key() {
        order::lemma_path_ranks_injective(f.bytes@, g.bytes@);
    }
    if i < j {
        assert(file_before(files@, positions[i], positions[j]));
    } else if j < i {
        assert(file_before(files@, positions[j], positions[i]));
        if file_before(files@, p, q) {
            lemma_file_before_transitive(files@, p, q, p);
            lemma_file_before_irreflexive(files@, p);
        }
    }
}

/// A file whose name is no Unicode text comes before those that have a name.
pub proof fn law_unreadable_names_come_first(
    files: Vec<SourceFile>,
    tracks: Vec<Track>,
    i: int,
    j: int,
    name: Seq<char>,
)
    requires
        call_ensures(discover_tracks, (ScannedInput::Directory(files),), Ok(tracks)),
        0 <= i < tracks@.len(),
        0 <= j < tracks@.len(),
        !files@[tracks@[i].source as int].readable,
        named(files@[tracks@[j].source as int], name),
        text::lowercase(name).len() > 0,
    ensures
        i < j,
{
    let positions = track_sources(tracks@);
    let (p, q) = (positions[i], positions[j]);
    lemma_named(files@[q], name);
    assert(files@[p].name_key() =~= Seq::empty());
    assert(files@[q].name_key().len() > 0);
    if j < i {
        assert(file_before(files@, positions[j], positions[i]));
    }
}

/// Each audio file gives one track, and no other file gives one.
pub proof fn law_each_audio_file_gives_one_track(
    files: Vec<SourceFile>,
    tracks: Vec<Track>,
    p: int,
    path: &str,
    r: bool,
)
    requires
        call_ensures(discover_tracks, (ScannedInput::Directory(files),), Ok(tracks)),
        0 <= p < files@.len(),
        path@ == files@[p].path@,
        call_ensures(paths::is_audio, (path,), r),
    ensures
        r ==> exists|k: int| 0 <= k < tracks@.len() && (#[trigger] tracks@[k]).source == p,
        !r ==> forall|k: int| 0 <= k < tracks@.len() ==> (#[trigger] tracks@[k]).source != p,
        forall|k: int|
            0 <= k < tracks@.len() ==> (#[trigger] tracks@[k]).source < files@.len(),
        forall|k: int, l: int|
            0 <= k < l < tracks@.len() ==> (#[trigger] tracks@[k]).source != (
            #[trigger] tracks@[l]).source,
{
    let positions = track_sources(tracks@);
    if r {
        assert(positions.contains(p));
        let k = choose|k: int| 0 <= k < positions.len() && positions[k] == p;
        assert(tracks@[k].source == p);
    }
    assert forall|k: int| 0 <= k < tracks@.len() implies (#[trigger] tracks@[k]).source
        < files@.len() && paths::audio(files@[tracks@[k].source as int].path@) by {
        assert(positions[k] == tracks@[k].source);
    }
    assert forall|k: int, l: int| 0 <= k < l < tracks@.len() implies (
    #[trigger] tracks@[k]).source != (#[trigger] tracks@[l]).source by {
        assert(file_before(files@, positions[k], positions[l]));
        lemma_file_before_irreflexive(files@, positions[k]);
    }
}

/// A track has the title that the path of its file gives, or the one that an empty
/// path gives where the file name is no Unicode text.
pub proof fn law_track_has_the_title_of_its_file(
    files: Vec<SourceFile>,
    tracks: Vec<Track>,
    k: int,
    path: &str,
    title: String,
)
    requires
        call_ensures(discover_tracks, (ScannedInput::Directory(files),), Ok(tracks)),
        0 <= k < tracks@.len(),
        files@[tracks@[k].source as int].readable ==> path@ == files@[tracks@[k].source as int].path@,
        !files@[tracks@[k].source as int].readable ==> path@.len() == 0,
        call_ensures(titles::title_from_path, (path,), title),
    ensures
        tracks@[k].title@ == title@,
{
    let file = files@[tracks@[k].source as int];
    assert(tracks@[k].title@ == file.spec_title());
    if !file.readable {
        assert(path@ =~= Seq::empty());
        assert(text::pieces(path@, text::CharClass::Slash) =~= Seq::empty());
    }
}

/// A file on its own gives one track.
pub proof fn law_one_file_gives_one_track(file: SourceFile, tracks: Vec<Track>)
    requires
        call_ensures(discover_tracks, (ScannedInput::File(file),), Ok(tracks)),
    ensures
        tracks@.len() == 1,
        tracks@[0].source == 0,
        paths::audio(file.path@),
{
    let files = seq![file];
    let positions = track_sources(tracks@);
    assert(ScannedInput::File(file).files() == files);
    assert(paths::audio(file.path@));
    assert(positions.contains(0)) by {
        assert(paths::audio(files[0].path@));
    }
    if positions.len() > 1 {
        assert(file_before(files, positions[0], positions[1]));
        lemma_file_before_irreflexive(files, 0);
    }
    assert(positions[0] == 0);
    assert(tracks@[0].source as int == positions[0]);
}

/// Whether a name is a stem as it is, or followed by a space and a number from two
/// on.
pub open spec fn stem_with_number(name: Seq<char>, stem: Seq<char>, number: int) -> bool {
    ||| number == 1 && name == stem
    ||| number >= 2 && name == stem.push(' ') + number::decimal(number as nat)
}

/// A video is called after the title of its track. A number is added only where the
/// name without it and those with a smaller number are given to earlier tracks, the
/// case of letters aside.
pub proof fn law_number_is_the_first_that_is_free(
    files: Vec<SourceFile>,
    tracks: Vec<Track>,
    k: int,
    title: &str,
    stem: String,
)
    requires
        call_ensures(discover_tracks, (ScannedInput::Directory(files),), Ok(tracks)),
        0 <= k < tracks@.len(),
        title@ == tracks@[k].title@,
        call_ensures(titles::safe_video_stem, (title,), stem),
    ensures
        exists|names: Seq<Seq<char>>, number: int|
            {
                &&& names.len() == tracks@.len()
                &&& forall|l: int|
                    0 <= l < names.len() ==> (#[trigger] tracks@[l]).output@ == names[l] + ".mp4"@
                &&& #[trigger] stem_with_number(names[k], stem@, number)
                &&& number <= 2_147_483_646
                &&& forall|m: int, other: Seq<char>|
                    1 <= m < number && #[trigger] stem_with_number(other, stem@, m) ==> exists|
                        l: int,
                    |
                        0 <= l < k && text::lowercase(#[trigger] names[l]) == text::lowercase(other)
            },
{
    let positions = track_sources(tracks@);
    let stems = title_stems(files@, positions);
    let names = told_apart(stems)->0;
    lemma_told_apart_at(stems, k);
    assert(positions[k] == tracks@[k].source);
    assert(stems[k] == stem@);
    let number = free_number(stems[k], taken_by(names.take(k)), 1)->0;
    law_first_free_number(stems[k], taken_by(names.take(k)), 1);
    assert(stem_with_number(names[k], stem@, number));
    assert forall|m: int, other: Seq<char>|
        1 <= m < number && #[trigger] stem_with_number(other, stem@, m) implies exists|l: int|
        0 <= l < k && text::lowercase(#[trigger] names[l]) == text::lowercase(other) by {
        assert(other == numbered(stem@, m));
        let lowered = |stem: Seq<char>| text::lowercase(stem);
        let list = names.take(k).map_values(lowered);
        assert(list.to_set().contains(text::lowercase(other)));
        let l = choose|l: int| 0 <= l < list.len() && list[l] == text::lowercase(other);
        assert(list[l] == text::lowercase(names[l]));
    }
    assert forall|l: int| 0 <= l < names.len() implies (#[trigger] tracks@[l]).output@ == names[l]
        + ".mp4"@ by {}
}

/// Each name is the first that is free after those before it.
proof fn lemma_told_apart_at(stems: Seq<Seq<char>>, k: int)
    requires
        told_apart(stems) is Some,
        0 <= k < stems.len(),
    ensures
        told_apart(stems)->0.len() == stems.len(),
        free_number(stems[k], taken_by(told_apart(stems)->0.take(k)), 1) is Some,
        told_apart(stems)->0[k] == numbered(
            stems[k],
            free_number(stems[k], taken_by(told_apart(stems)->0.take(k)), 1)->0,
        ),
    decreases stems.len(),
{
    let before = told_apart(stems.drop_last())->0;
    let names = told_apart(stems)->0;
    if stems.len() > 1 {
        lemma_told_apart_at(stems.drop_last(), if k < stems.len() - 1 {
            k
        } else {
            0
        });
    }
    if k < stems.len() - 1 {
        assert(names.take(k) =~= before.take(k));
    } else {
        assert(names.take(k) =~= before);
    }
}

/// The order of the audio files is that of the tracks.
pub proof fn law_tracks_are_in_the_order_of_the_files(
    files: Vec<SourceFile>,
    positions: Vec<usize>,
    tracks: Vec<Track>,
)
    requires
        call_ensures(audio_order, (&files,), positions),
        call_ensures(discover_tracks, (ScannedInput::Directory(files),), Ok(tracks)),
    ensures
        positions@.len() == tracks@.len(),
        forall|k: int| 0 <= k < tracks@.len() ==> (#[trigger] tracks@[k]).source == positions@[k],
{
    let (p, q) = (as_positions(positions@), track_sources(tracks@));
    law_order_is_determined(files@, p, q);
    assert(p.len() == positions@.len() && q.len() == tracks@.len());
    assert forall|k: int| 0 <= k < tracks@.len() implies (#[trigger] tracks@[k]).source
        == positions@[k] by {
        assert(p[k] == q[k]);
    }
}

/// The title of a file is the one that its path gives, or the one that an empty path
/// gives where its name is no Unicode text.
pub proof fn law_title_of_a_file_is_that_of_its_path(
    file: &SourceFile,
    path: &str,
    r: String,
    title: String,
)
    requires
        file.readable ==> path@ == file.path@,
        !file.readable ==> path@.len() == 0,
        call_ensures(SourceFile::title, (file,), r),
        call_ensures(titles::title_from_path, (path,), title),
    ensures
        r@ == title@,
{
    if !file.readable {
        assert(path@ =~= Seq::empty());
        assert(text::pieces(path@, text::CharClass::Slash) =~= Seq::empty());
    }
}

/// Whether every name with a number that is tried for a stem is among the given ones,
/// the case of letters aside.
pub open spec fn all_taken(stem: Seq<char>, names: Seq<Seq<char>>) -> bool {
    forall|number: int, name: Seq<char>|
        1 <= number <= 2_147_483_646 && #[trigger] stem_with_number(name, stem, number) ==> exists|
            l: int,
        |
            0 <= l < names.len() && text::lowercase(#[trigger] names[l]) == text::lowercase(name)
}

/// Where no number is free, all are taken.
proof fn lemma_no_free_number(stem: Seq<char>, taken: Set<Seq<char>>, from: int, number: int)
    requires
        free_number(stem, taken, from) is None,
        from <= number <= LAST_NUMBER,
    ensures
        taken.contains(text::lowercase(numbered(stem, number))),
    decreases LAST_NUMBER + 1 - from,
{
    if from < number {
        lemma_no_free_number(stem, taken, from + 1, number);
    }
}

/// Where names cannot be told apart, those of some stem are all taken by names that
/// were given before.
proof fn lemma_not_told_apart(stems: Seq<Seq<char>>) -> (names: Seq<Seq<char>>)
    requires
        told_apart(stems) is None,
    ensures
        names.len() < stems.len(),
        distinct_names(names),
        exists|k: int| 0 <= k < stems.len() && #[trigger] all_taken(stems[k], names),
    decreases stems.len(),
{
    let earlier = stems.drop_last();
    if told_apart(earlier) is None {
        let names = lemma_not_told_apart(earlier);
        let k = choose|k: int| 0 <= k < earlier.len() && #[trigger] all_taken(earlier[k], names);
        assert(all_taken(stems[k], names));
        names
    } else {
        let names = told_apart(earlier)->0;
        let stem = stems.last();
        law_names_are_distinct(earlier);
        if earlier.len() > 0 {
            lemma_told_apart_at(earlier, 0);
        }
        assert forall|number: int, name: Seq<char>|
            1 <= number <= 2_147_483_646 && #[trigger] stem_with_number(
                name,
                stem,
                number,
            ) implies exists|l: int|
            0 <= l < names.len() && text::lowercase(#[trigger] names[l]) == text::lowercase(
                name,
            ) by {
            assert(name == numbered(stem, number));
            lemma_no_free_number(stem, taken_by(names), 1, number);
            let lowered = |stem: Seq<char>| text::lowercase(stem);
            let list = names.map_values(lowered);
            assert(list.to_set().contains(text::lowercase(name)));
            let l = choose|l: int| 0 <= l < list.len() && list[l] == text::lowercase(name);
            assert(list[l] == text::lowercase(names[l]));
        }
        assert(all_taken(stems[stems.len() - 1], names));
        names
    }
}

/// Names run out only for a file for whose title every number is taken by a name that
/// was given to another file, no two of these names being equal.
pub proof fn law_names_run_out_only_when_all_are_taken(files: Vec<SourceFile>)
    requires
        call_ensures(
            discover_tracks,
            (ScannedInput::Directory(files),),
            Err(DiscoveryError::NamesExhausted),
        ),
    ensures
        exists|p: int, names: Seq<Seq<char>>|
            {
                &&& 0 <= p < files@.len()
                &&& distinct_names(names)
                &&& #[trigger] all_taken(titles::video_stem(files@[p].spec_title()), names)
            },
{
    let positions = choose|positions: Seq<int>| #[trigger]
        lists_audio(files@, positions) && told_apart(title_stems(files@, positions)) is None;
    let stems = title_stems(files@, positions);
    let names = lemma_not_told_apart(stems);
    let k = choose|k: int| 0 <= k < stems.len() && #[trigger] all_taken(stems[k], names);
    let p = positions[k];
    assert(all_taken(titles::video_stem(files@[p].spec_title()), names));
}

/// A file on its own gives the track that it gives as the only one of a directory.
pub proof fn law_one_file_is_as_a_directory_of_one(
    file: SourceFile,
    files: Vec<SourceFile>,
    tracks: Vec<Track>,
    others: Vec<Track>,
)
    requires
        files@ == seq![file],
        call_ensures(discover_tracks, (ScannedInput::File(file),), Ok(tracks)),
        call_ensures(discover_tracks, (ScannedInput::Directory(files),), Ok(others)),
    ensures
        tracks@.len() == 1,
        others@.len() == 1,
        tracks@[0].title@ == others@[0].title@,
        tracks@[0].output@ == others@[0].output@,
        tracks@[0].source == others@[0].source,
{
    law_one_file_gives_one_track(file, tracks);
    assert(ScannedInput::File(file).files() == files@);
    let (p, q) = (track_sources(tracks@), track_sources(others@));
    law_order_is_determined(files@, p, q);
    assert(p.len() == tracks@.len() && q.len() == others@.len());
    assert(p[0] == q[0]);
    assert(tracks@[0].source == others@[0].source);
    assert(tracks@[0].title@ == files@[0].spec_title());
    assert(others@[0].title@ == files@[0].spec_title());
}

/// A file that is no audio file is refused, and so is what is neither a file nor a
/// directory. A directory is refused only where names run out.
pub proof fn law_only_audio_is_accepted(
    file: SourceFile,
    path: &str,
    audio: bool,
    files: Vec<SourceFile>,
    r: Result<Vec<Track>, DiscoveryError>,
    missing: Result<Vec<Track>, DiscoveryError>,
    listed: Result<Vec<Track>, DiscoveryError>,
)
    requires
        path@ == file.path@,
        call_ensures(paths::is_audio, (path,), audio),
        call_ensures(discover_tracks, (ScannedInput::File(file),), r),
        call_ensures(discover_tracks, (ScannedInput::Missing,), missing),
        call_ensures(discover_tracks, (ScannedInput::Directory(files),), listed),
    ensures
        r is Ok <==> audio,
        !audio ==> r == Err::<Vec<Track>, _>(DiscoveryError::UnsupportedExtension),
        missing == Err::<Vec<Track>, _>(DiscoveryError::MissingInput),
        listed matches Err(error) ==> error is NamesExhausted,
{
    if audio {
        law_one_file_has_a_name(seq![file]);
        assert(ScannedInput::File(file).files() == seq![file]);
    }
}

} // verus!
