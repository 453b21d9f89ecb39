//! The summary of what was rendered, by which later runs leave out what is
//! current.
use vstd::prelude::*;

use crate::batch::RenderOutcome;
use crate::encoder::RenderStats;
use crate::order;
use crate::paths;
use crate::profile;
use crate::profile::RunProfile;
use crate::text;

verus! {

/// The version of the summary's format.
pub const SCHEMA_VERSION: u32 = 1;

// ---------------------------------------------------------------------------
// Entries
// ---------------------------------------------------------------------------

/// How far a track has come.
#[derive(Clone, Copy, Debug, PartialEq, Eq, Structural)]
pub enum TrackStatus {
    /// Still to be rendered.
    Pending,
    /// Rendered by the last run.
    Rendered,
    /// Rendered by an earlier run, and current.
    Unchanged,
    /// Its rendering failed.
    Failed,
}

/// A number of seconds as the summary holds it. A stored number that is no whole
/// number of milliseconds is kept as it is.
#[derive(Clone, Copy, Debug, PartialEq, Eq, Structural)]
pub enum StoredSeconds {
    /// So many milliseconds.
    Millis(u64),
    /// The double-precision number with these bits.
    Bits(u64),
}

/// What the summary holds of a track.
#[derive(Debug)]
pub struct TrackSummary {
    pub source: String,
    pub title: String,
    pub output: String,
    pub source_bytes: u64,
    pub source_modified_ns: u64,
    pub profile_id: String,
    pub status: TrackStatus,
    pub duration_seconds: Option<StoredSeconds>,
    pub elapsed_seconds: Option<StoredSeconds>,
    pub output_bytes: Option<u64>,
    pub error: Option<String>,
}

/// An entry of the summary as a mathematical value.
pub struct Entry {
    pub source: Seq<char>,
    pub title: Seq<char>,
    pub output: Seq<char>,
    pub source_bytes: u64,
    pub source_modified_ns: u64,
    pub profile_id: Seq<char>,
    pub status: TrackStatus,
    pub duration_seconds: Option<StoredSeconds>,
    pub elapsed_seconds: Option<StoredSeconds>,
    pub output_bytes: Option<u64>,
    pub error: Option<Seq<char>>,
}

/// An optional text as a mathematical value.
pub open spec fn optional_text(text: Option<String>) -> Option<Seq<char>> {
    match text {
        Some(text) => Some(text@),
        None => None,
    }
}

impl View for TrackSummary {
    type V = Entry;

    open spec fn view(&self) -> Entry {
        Entry {
            source: self.source@,
            title: self.title@,
            output: self.output@,
            source_bytes: self.source_bytes,
            source_modified_ns: self.source_modified_ns,
            profile_id: self.profile_id@,
            status: self.status,
            duration_seconds: self.duration_seconds,
            elapsed_seconds: self.elapsed_seconds,
            output_bytes: self.output_bytes,
            error: optional_text(self.error),
        }
    }
}

/// Whether no status is stored under a name.
pub open spec fn names_no_status(name: Seq<char>) -> bool {
    forall|status: TrackStatus| #[trigger] status.spec_name() != name
}

impl TrackStatus {
    /// The name under which the status is stored.
    pub open spec fn spec_name(self) -> Seq<char> {
        match self {
            TrackStatus::Pending => "pending"@,
            TrackStatus::Rendered => "rendered"@,
            TrackStatus::Unchanged => "unchanged"@,
            TrackStatus::Failed => "failed"@,
        }
    }

    /// The name under which the status is stored.
    pub fn name(self) -> (r: &'static str)
        ensures
            r@ == self.spec_name(),
    {
        match self {
            TrackStatus::Pending => "pending",
            TrackStatus::Rendered => "rendered",
            TrackStatus::Unchanged => "unchanged",
            TrackStatus::Failed => "failed",
        }
    }

    /// The status that is stored under a name.
    pub fn from_name(name: &str) -> (r: Option<TrackStatus>)
        ensures
            match r {
                Some(status) => status.spec_name() == name@,
                None => names_no_status(name@),
            },
    {
        if text::same_text(name, "pending") {
            Some(TrackStatus::Pending)
        } else if text::same_text(name, "rendered") {
            Some(TrackStatus::Rendered)
        } else if text::same_text(name, "unchanged") {
            Some(TrackStatus::Unchanged)
        } else if text::same_text(name, "failed") {
            Some(TrackStatus::Failed)
        } else {
            None
        }
    }

    /// Whether the status is that of a video that was made.
    pub open spec fn made(self) -> bool {
        self == TrackStatus::Rendered || self == TrackStatus::Unchanged
    }
}

/// No two statuses are stored under the same name.
pub proof fn law_status_names_differ(a: TrackStatus, b: TrackStatus)
    ensures
        a.spec_name() == b.spec_name() ==> a == b,
{
    reveal_strlit("pending");
    reveal_strlit("rendered");
    reveal_strlit("unchanged");
    reveal_strlit("failed");
    assert(a == b || a.spec_name().len() != b.spec_name().len());
}

// ---------------------------------------------------------------------------
// Entries in order
// ---------------------------------------------------------------------------

/// The entries that a list of track summaries stands for.
pub open spec fn entries_of(tracks: Seq<TrackSummary>) -> Seq<Entry> {
    tracks.map_values(|track: TrackSummary| track@)
}

/// The entries by their sources; of entries with the same source the last one.
pub open spec fn by_source(entries: Seq<Entry>) -> Map<Seq<char>, Entry>
    decreases entries.len(),
{
    if entries.len() == 0 {
        Map::empty()
    } else {
        by_source(entries.drop_last()).insert(entries.last().source, entries.last())
    }
}

/// Whether the entries are ordered by source, each source once.
pub open spec fn in_source_order(entries: Seq<Entry>) -> bool {
    forall|i: int, j: int|
        0 <= i < j < entries.len() ==> order::text_before(
            (#[trigger] entries[i]).source,
            (#[trigger] entries[j]).source,
        )
}

/// In ordered entries each entry is found under its source, and nothing else.
proof fn lemma_by_source_ordered(entries: Seq<Entry>)
    requires
        in_source_order(entries),
    ensures
        forall|i: int|
            0 <= i < entries.len() ==> by_source(entries).contains_key(
                (#[trigger] entries[i]).source,
            ) && by_source(entries)[entries[i].source] == entries[i],
        forall|source: Seq<char>| #[trigger]
            by_source(entries).contains_key(source) ==> exists|i: int|
                0 <= i < entries.len() && (#[trigger] entries[i]).source == source,
    decreases entries.len(),
{
    if entries.len() > 0 {
        let rest = entries.drop_last();
        assert(in_source_order(rest)) by {
            assert forall|i: int, j: int| 0 <= i < j < rest.len() implies order::text_before(
                (#[trigger] rest[i]).source,
                (#[trigger] rest[j]).source,
            ) by {
                assert(order::text_before(entries[i].source, entries[j].source));
            }
        }
        lemma_by_source_ordered(rest);
        let last = entries.last();
        assert forall|i: int| 0 <= i < entries.len() implies by_source(entries).contains_key(
            (#[trigger] entries[i]).source,
        ) && by_source(entries)[entries[i].source] == entries[i] by {
            if i < rest.len() {
                assert(rest[i] == entries[i]);
                assert(order::text_before(entries[i].source, entries[entries.len() - 1].source));
                order::lemma_before_irreflexive(order::code_points(last.source));
            }
        }
        assert forall|source: Seq<char>| #[trigger]
            by_source(entries).contains_key(source) implies exists|i: int|
            0 <= i < entries.len() && (#[trigger] entries[i]).source == source by {
            if source == last.source {
                assert(entries[entries.len() - 1].source == source);
            } else {
                assert(by_source(rest).contains_key(source));
                let i = choose|i: int|
                    0 <= i < rest.len() && (#[trigger] rest[i]).source == source;
                assert(entries[i].source == source);
            }
        }
    }
}

/// Two ordered lists that hold the same entries under the same sources are
/// equal.
pub proof fn law_source_order_is_determined(a: Seq<Entry>, b: Seq<Entry>)
    requires
        in_source_order(a),
        in_source_order(b),
        by_source(a) == by_source(b),
    ensures
        a == b,
{
    lemma_same_entries(a, b, a.len() as int);
    lemma_same_entries(b, a, b.len() as int);
    assert(a =~= b);
}

/// Two ordered lists of the same entries agree on their first entries.
proof fn lemma_same_entries(a: Seq<Entry>, b: Seq<Entry>, count: int)
    requires
        in_source_order(a),
        in_source_order(b),
        by_source(a) == by_source(b),
        0 <= count <= a.len(),
    ensures
        count <= b.len(),
        forall|i: int| 0 <= i < count ==> #[trigger] a[i] == b[i],
    decreases count,
{
    if count > 0 {
        let k = count - 1;
        lemma_same_entries(a, b, k);
        lemma_by_source_ordered(a);
        lemma_by_source_ordered(b);
        let x = a[k].source;
        assert(by_source(b).contains_key(x));
        let m = choose|m: int| 0 <= m < b.len() && (#[trigger] b[m]).source == x;
        order::lemma_before_irreflexive(order::code_points(x));
        if m < k {
            assert(a[m] == b[m]);
            assert(order::text_before(a[m].source, a[k].source));
        }
        assert(m >= k);
        if m > k {
            let y = b[k].source;
            assert(order::text_before(b[k].source, b[m].source));
            assert(by_source(a).contains_key(y));
            let n = choose|n: int| 0 <= n < a.len() && (#[trigger] a[n]).source == y;
            if n < k {
                assert(a[n] == b[n]);
                assert(order::text_before(b[n].source, b[k].source));
                order::lemma_before_irreflexive(order::code_points(y));
            } else if n > k {
                assert(order::text_before(a[k].source, a[n].source));
                order::lemma_before_transitive(
                    order::code_points(x),
                    order::code_points(y),
                    order::code_points(x),
                );
            }
        }
        assert(a[k] == by_source(a)[x]);
        assert(b[k] == by_source(b)[b[k].source]);
    }
}

/// Track summaries ordered by source.
struct Catalog {
    tracks: Vec<TrackSummary>,
}

impl Catalog {
    /// Whether the track summaries are in order.
    spec fn ordered(self) -> bool {
        in_source_order(entries_of(self.tracks@))
    }

    /// The entries by their sources.
    spec fn known(self) -> Map<Seq<char>, Entry> {
        by_source(entries_of(self.tracks@))
    }

    /// A catalog without entries.
    fn new() -> (r: Catalog)
        ensures
            r.ordered(),
            r.known() == Map::<Seq<char>, Entry>::empty(),
    {
        let r = Catalog { tracks: Vec::new() };
        proof {
            assert(entries_of(r.tracks@) =~= Seq::empty());
        }
        r
    }

    /// Where the entry of a source is, or where it would be put.
    fn locate(&self, source: &String) -> (r: Result<usize, usize>)
        requires
            self.ordered(),
        ensures
            match r {
                Ok(position) => position < self.tracks@.len() && self.tracks@[position as int].source@
                    == source@,
                Err(position) => {
                    &&& position <= self.tracks@.len()
                    &&& forall|i: int|
                        0 <= i < position ==> order::text_before(
                            (#[trigger] self.tracks@[i]).source@,
                            source@,
                        )
                    &&& forall|i: int|
                        position <= i < self.tracks@.len() ==> order::text_before(
                            source@,
                            (#[trigger] self.tracks@[i]).source@,
                        )
                },
            },
    {
        let wanted = order::to_code_points(&text::characters(source.as_str()));
        let ghost entries = entries_of(self.tracks@);
        let mut low: usize = 0;
        let mut high: usize = self.tracks.len();
        while low < high
            invariant
                self.ordered(),
                entries == entries_of(self.tracks@),
                wanted@ == order::code_points(source@),
                low <= high <= self.tracks@.len(),
                forall|i: int|
                    0 <= i < low ==> order::text_before(
                        (#[trigger] self.tracks@[i]).source@,
                        source@,
                    ),
                forall|i: int|
                    high <= i < self.tracks@.len() ==> order::text_before(
                        source@,
                        (#[trigger] self.tracks@[i]).source@,
                    ),
            decreases high - low,
        {
            let middle: usize = low + (high - low) / 2;
            let here = order::to_code_points(
                &text::characters(self.tracks[middle].source.as_str()),
            );
            if order::is_before(&here, &wanted) {
                proof {
                    assert forall|i: int| 0 <= i < middle + 1 implies order::text_before(
                        (#[trigger] self.tracks@[i]).source@,
                        source@,
                    ) by {
                        if i < middle {
                            assert(order::text_before(
                                entries[i].source,
                                entries[middle as int].source,
                            ));
                            order::lemma_before_transitive(
                                order::code_points(self.tracks@[i].source@),
                                here@,
                                wanted@,
                            );
                        }
                    }
                }
                low = middle + 1;
            } else if order::is_before(&wanted, &here) {
                proof {
                    assert forall|i: int|
                        middle <= i < self.tracks@.len() implies order::text_before(
                        source@,
                        (#[trigger] self.tracks@[i]).source@,
                    ) by {
                        if i > middle {
                            assert(order::text_before(
                                entries[middle as int].source,
                                entries[i].source,
                            ));
                            order::lemma_before_transitive(
                                wanted@,
                                here@,
                                order::code_points(self.tracks@[i].source@),
                            );
                        }
                    }
                }
                high = middle;
            } else {
                proof {
                    order::lemma_before_total(here@, wanted@);
                    order::lemma_code_points_injective(
                        self.tracks@[middle as int].source@,
                        source@,
                    );
                }
                return Ok(middle);
            }
        }
        Err(low)
    }

    /// Takes the entry of a source out, where there is one.
    fn remove(&mut self, source: &String) -> (r: Option<TrackSummary>)
        requires
            old(self).ordered(),
        ensures
            final(self).ordered(),
            final(self).known() == old(self).known().remove(source@),
            match r {
                Some(track) => old(self).known().contains_key(source@) && track@
                    == old(self).known()[source@] && track.source@ == source@,
                None => !old(self).known().contains_key(source@),
            },
    {
        let ghost before = entries_of(self.tracks@);
        proof {
            lemma_by_source_ordered(before);
        }
        match self.locate(source) {
            Ok(position) => {
                proof {
                    assert(before[position as int].source == source@);
                }
                let track = self.tracks.remove(position);
                proof {
                    lemma_entry_removed(before, entries_of(self.tracks@), position as int);
                }
                Some(track)
            },
            Err(position) => {
                proof {
                    assert forall|i: int| 0 <= i < before.len() implies (#[trigger] before[i]).source
                        != source@ by {
                        order::lemma_before_irreflexive(order::code_points(source@));
                        assert(before[i] == self.tracks@[i]@);
                    }
                    assert(old(self).known().remove(source@) =~= old(self).known());
                }
                None
            },
        }
    }

    /// Puts an entry in the place of the one of the same source, if any.
    fn insert(&mut self, track: TrackSummary)
        requires
            old(self).ordered(),
        ensures
            final(self).ordered(),
            final(self).known() == old(self).known().insert(track.source@, track@),
    {
        let ghost added = track@;
        let removed = self.remove(&track.source);
        let ghost before = entries_of(self.tracks@);
        proof {
            lemma_by_source_ordered(before);
        }
        match self.locate(&track.source) {
            Ok(position) => {
                proof {
                    assert(before[position as int].source == track.source@);
                    assert(false);
                }
            },
            Err(position) => {
                self.tracks.insert(position, track);
                proof {
                    assert forall|i: int| 0 <= i < position implies order::text_before(
                        (#[trigger] before[i]).source,
                        added.source,
                    ) by {}
                    assert forall|i: int| position <= i < before.len() implies order::text_before(
                        added.source,
                        (#[trigger] before[i]).source,
                    ) by {}
                    lemma_entry_added(before, entries_of(self.tracks@), position as int, added);
                    assert(old(self).known().remove(added.source).insert(added.source, added)
                        =~= old(self).known().insert(added.source, added));
                }
            },
        }
    }
}

/// Taking an entry out of ordered entries.
proof fn lemma_entry_removed(before: Seq<Entry>, after: Seq<Entry>, position: int)
    requires
        in_source_order(before),
        0 <= position < before.len(),
        after =~= before.remove(position),
    ensures
        in_source_order(after),
        by_source(after) == by_source(before).remove(before[position].source),
{
    let gone = before[position].source;
    assert forall|i: int, j: int| 0 <= i < j < after.len() implies order::text_before(
        (#[trigger] after[i]).source,
        (#[trigger] after[j]).source,
    ) by {
        let (k, l) = (
            if i < position {
                i
            } else {
                i + 1
            },
            if j < position {
                j
            } else {
                j + 1
            },
        );
        assert(after[i] == before[k] && after[j] == before[l]);
    }
    lemma_by_source_ordered(before);
    lemma_by_source_ordered(after);
    let expected = by_source(before).remove(gone);
    assert forall|source: Seq<char>| #[trigger]
        by_source(after).contains_key(source) <==> expected.contains_key(source) by {
        if by_source(after).contains_key(source) {
            let i = choose|i: int| 0 <= i < after.len() && (#[trigger] after[i]).source == source;
            let k = if i < position {
                i
            } else {
                i + 1
            };
            assert(before[k] == after[i]);
            if k < position {
                assert(order::text_before(before[k].source, before[position].source));
            } else {
                assert(order::text_before(before[position].source, before[k].source));
            }
            order::lemma_before_irreflexive(order::code_points(gone));
        }
        if expected.contains_key(source) {
            assert(by_source(before).contains_key(source));
            let k = choose|k: int| 0 <= k < before.len() && (#[trigger] before[k]).source == source;
            let i = if k < position {
                k
            } else {
                k - 1
            };
            assert(after[i] == before[k]);
        }
    }
    assert forall|source: Seq<char>| #[trigger]
        by_source(after).contains_key(source) implies by_source(after)[source]
        == expected[source] by {
        let i = choose|i: int| 0 <= i < after.len() && (#[trigger] after[i]).source == source;
        let k = if i < position {
            i
        } else {
            i + 1
        };
        assert(before[k] == after[i]);
    }
    assert(by_source(after) =~= expected);
}

/// Adding an entry between those that come before it and those that come after.
proof fn lemma_entry_added(before: Seq<Entry>, after: Seq<Entry>, position: int, added: Entry)
    requires
        in_source_order(before),
        0 <= position <= before.len(),
        after =~= before.insert(position, added),
        forall|i: int|
            0 <= i < position ==> order::text_before((#[trigger] before[i]).source, added.source),
        forall|i: int|
            position <= i < before.len() ==> order::text_before(
                added.source,
                (#[trigger] before[i]).source,
            ),
    ensures
        in_source_order(after),
        by_source(after) == by_source(before).insert(added.source, added),
{
    assert forall|i: int, j: int| 0 <= i < j < after.len() implies order::text_before(
        (#[trigger] after[i]).source,
        (#[trigger] after[j]).source,
    ) by {
        let k = if i < position {
            i
        } else {
            i - 1
        };
        let l = if j < position {
            j
        } else {
            j - 1
        };
        if i != position {
            assert(after[i] == before[k]);
        }
        if j != position {
            assert(after[j] == before[l]);
        }
    }
    assert(after[position] == added);
    lemma_by_source_ordered(before);
    lemma_by_source_ordered(after);
    let expected = by_source(before).insert(added.source, added);
    assert forall|source: Seq<char>| #[trigger]
        by_source(after).contains_key(source) <==> expected.contains_key(source) by {
        if by_source(after).contains_key(source) {
            let i = choose|i: int| 0 <= i < after.len() && (#[trigger] after[i]).source == source;
            if i != position {
                let k = if i < position {
                    i
                } else {
                    i - 1
                };
                assert(before[k] == after[i]);
            }
        }
        if by_source(before).contains_key(source) {
            let k = choose|k: int| 0 <= k < before.len() && (#[trigger] before[k]).source == source;
            let i = if k < position {
                k
            } else {
                k + 1
            };
            assert(after[i] == before[k]);
        }
    }
    assert forall|source: Seq<char>| #[trigger]
        by_source(after).contains_key(source) implies by_source(after)[source]
        == expected[source] by {
        let i = choose|i: int| 0 <= i < after.len() && (#[trigger] after[i]).source == source;
        if i != position {
            let k = if i < position {
                i
            } else {
                i - 1
            };
            assert(before[k] == after[i]);
            assert(source != added.source) by {
                order::lemma_before_irreflexive(order::code_points(source));
            }
        }
    }
    assert(by_source(after) =~= expected);
}

// ---------------------------------------------------------------------------
// Observed tracks
// ---------------------------------------------------------------------------

/// The size of a source file and when it was last modified.
#[derive(Clone, Copy, Debug, PartialEq, Eq, Structural)]
pub struct Fingerprint {
    pub bytes: u64,
    /// Nanoseconds since the Unix epoch.
    pub modified_ns: u64,
}

/// What is known of a track's files when a run starts.
pub struct ObservedTrack {
    /// The source, as the summary names it.
    pub source: String,
    /// The video, as the summary names it.
    pub output: String,
    pub title: String,
    /// Size and age of the source, where it could be inspected.
    pub fingerprint: Option<Fingerprint>,
    /// The estimated length of the source in milliseconds, rounded.
    pub duration_millis: Option<u64>,
    /// Whether the video exists as a file.
    pub output_is_file: bool,
    /// The size of the video, where it could be inspected.
    pub output_bytes: Option<u64>,
}

/// An observed track as a mathematical value.
pub struct Observation {
    pub source: Seq<char>,
    pub output: Seq<char>,
    pub title: Seq<char>,
    pub fingerprint: Option<Fingerprint>,
    pub duration_millis: Option<u64>,
    pub output_is_file: bool,
    pub output_bytes: Option<u64>,
}

impl View for ObservedTrack {
    type V = Observation;

    open spec fn view(&self) -> Observation {
        Observation {
            source: self.source@,
            output: self.output@,
            title: self.title@,
            fingerprint: self.fingerprint,
            duration_millis: self.duration_millis,
            output_is_file: self.output_is_file,
            output_bytes: self.output_bytes,
        }
    }
}

/// The observations that a list of observed tracks stands for.
pub open spec fn observations_of(tracks: Seq<ObservedTrack>) -> Seq<Observation> {
    tracks.map_values(|track: ObservedTrack| track@)
}

/// The fingerprint of a file of the given size that was modified the given
/// number of nanoseconds after the Unix epoch, where that is known.
pub fn source_fingerprint(bytes: u64, modified_ns: Option<u128>) -> (r: Fingerprint)
    ensures
        r.bytes == bytes,
        r.modified_ns == (match modified_ns {
            Some(ns) => if ns <= u64::MAX {
                ns as int
            } else {
                u64::MAX as int
            },
            None => 0int,
        }),
{
    let modified_ns: u64 = match modified_ns {
        Some(ns) => if ns <= u64::MAX as u128 {
            ns as u64
        } else {
            u64::MAX
        },
        None => 0,
    };
    Fingerprint { bytes, modified_ns }
}

/// A path with `/` for every backslash.
pub open spec fn portable(path: Seq<char>) -> Seq<char> {
    path.map_values(
        |c: char|
            if c == '\\' {
                '/'
            } else {
                c
            },
    )
}

/// How the summary names a path: by its part below the project where it lies in
/// that, and with `/` for every backslash.
pub open spec fn portable_below(path: Seq<char>, project_root: Seq<char>) -> Seq<char> {
    portable(
        if paths::lies_below(path, project_root) {
            paths::remainder(path, paths::components(project_root).len())
        } else {
            path
        },
    )
}

/// How the summary names a path, given the directory of the project.
pub fn portable_path(path: &str, project_root: &str) -> (r: String)
    ensures
        r@ == portable_below(path@, project_root@),
{
    match paths::below_root(path, project_root) {
        Some(part) => portable_name(part.as_str()),
        None => portable_name(path),
    }
}

/// A path with `/` for every backslash.
pub fn portable_name(path: &str) -> (r: String)
    ensures
        r@ == portable(path@),
{
    let characters = text::characters(path);
    let mut r = String::new();
    for i in 0..characters.len()
        invariant
            r@ == portable(characters@.take(i as int)),
    {
        r.push(
            if characters[i] == '\\' {
                '/'
            } else {
                characters[i]
            },
        );
        proof {
            assert(portable(characters@.take(i + 1)) =~= portable(characters@.take(i as int)).push(
                if characters@[i as int] == '\\' {
                    '/'
                } else {
                    characters@[i as int]
                },
            ));
        }
    }
    proof {
        assert(characters@.take(characters@.len() as int) =~= characters@);
    }
    r
}

// ---------------------------------------------------------------------------
// Which tracks are current
// ---------------------------------------------------------------------------

/// On what terms a run decides.
pub struct Terms {
    /// The identifier of the run's profile.
    pub profile_id: Seq<char>,
    /// How much of a track is rendered at most, in milliseconds.
    pub limit_millis: Option<u64>,
    /// Whether tracks are rendered although they are current.
    pub overwrite: bool,
}

/// The length of a video, where the length of the source is known.
pub open spec fn limited(duration_millis: Option<u64>, limit_millis: Option<u64>) -> Option<
    StoredSeconds,
> {
    match (duration_millis, limit_millis) {
        (Some(duration), Some(limit)) => Some(
            StoredSeconds::Millis(
                if duration <= limit {
                    duration
                } else {
                    limit
                },
            ),
        ),
        (Some(duration), None) => Some(StoredSeconds::Millis(duration)),
        (None, _) => None,
    }
}

/// Whether an entry was made from the observed source under the same profile.
pub open spec fn current(entry: Entry, seen: Observation, profile_id: Seq<char>) -> bool {
    &&& seen.fingerprint == Some(
        Fingerprint { bytes: entry.source_bytes, modified_ns: entry.source_modified_ns },
    )
    &&& entry.profile_id == profile_id
    &&& entry.status.made()
}

/// Whether an observed track need not be rendered.
pub open spec fn up_to_date(
    known: Map<Seq<char>, Entry>,
    seen: Observation,
    terms: Terms,
) -> bool {
    &&& !terms.overwrite
    &&& seen.output_is_file
    &&& known.contains_key(seen.source)
    &&& current(known[seen.source], seen, terms.profile_id)
}

/// The entry of a track that is to be rendered.
pub open spec fn pending_entry(seen: Observation, terms: Terms) -> Entry {
    Entry {
        source: seen.source,
        title: seen.title,
        output: seen.output,
        source_bytes: seen.fingerprint->0.bytes,
        source_modified_ns: seen.fingerprint->0.modified_ns,
        profile_id: terms.profile_id,
        status: TrackStatus::Pending,
        duration_seconds: limited(seen.duration_millis, terms.limit_millis),
        elapsed_seconds: None,
        output_bytes: None,
        error: None,
    }
}

/// The entry of a track that is current.
pub open spec fn unchanged_entry(entry: Entry, seen: Observation) -> Entry {
    Entry {
        title: seen.title,
        output: seen.output,
        status: TrackStatus::Unchanged,
        output_bytes: seen.output_bytes,
        error: None,
        ..entry
    }
}

/// The entry that an observed track has when a run starts.
pub open spec fn settled(
    known: Map<Seq<char>, Entry>,
    seen: Observation,
    terms: Terms,
) -> Entry {
    if up_to_date(known, seen, terms) {
        unchanged_entry(known[seen.source], seen)
    } else {
        pending_entry(seen, terms)
    }
}

/// The known entries after the observed tracks were settled one by one.
pub open spec fn after_settling(
    known: Map<Seq<char>, Entry>,
    seen: Seq<Observation>,
    terms: Terms,
) -> Map<Seq<char>, Entry>
    decreases seen.len(),
{
    if seen.len() == 0 {
        known
    } else {
        let before = after_settling(known, seen.drop_last(), terms);
        before.insert(seen.last().source, settled(before, seen.last(), terms))
    }
}

/// The positions of the observed tracks that are to be rendered.
pub open spec fn to_render(
    known: Map<Seq<char>, Entry>,
    seen: Seq<Observation>,
    terms: Terms,
) -> Seq<int>
    decreases seen.len(),
{
    if seen.len() == 0 {
        Seq::empty()
    } else {
        let before = to_render(known, seen.drop_last(), terms);
        if up_to_date(after_settling(known, seen.drop_last(), terms), seen.last(), terms) {
            before
        } else {
            before.push(seen.len() - 1)
        }
    }
}

/// Whether one of the observed tracks has the given source.
pub open spec fn observed(seen: Seq<Observation>, source: Seq<char>) -> bool {
    exists|i: int| 0 <= i < seen.len() && (#[trigger] seen[i]).source == source
}

/// The entries that remain where those of tracks not observed are dropped.
pub open spec fn without_unobserved(
    known: Map<Seq<char>, Entry>,
    seen: Seq<Observation>,
) -> Map<Seq<char>, Entry> {
    known.restrict(Set::new(|source: Seq<char>| observed(seen, source)))
}

// ---------------------------------------------------------------------------
// The summary
// ---------------------------------------------------------------------------

/// The summary of what was rendered.
#[derive(Debug)]
pub struct Summary {
    pub schema: u32,
    pub profile: Option<RunProfile>,
    pub tracks: Vec<TrackSummary>,
}

/// A stored summary is of a version that is not supported.
#[derive(Clone, Copy, Debug, PartialEq, Eq, Structural)]
pub struct UnsupportedSchema {
    pub schema: u32,
}

/// The source of an observed track could not be inspected.
#[derive(Clone, Copy, Debug, PartialEq, Eq, Structural)]
pub struct UnreadableSource {
    /// The position of the first such track.
    pub position: usize,
}

/// Why an outcome could not be recorded.
#[derive(Clone, Copy, Debug, PartialEq, Eq, Structural)]
pub enum RecordError {
    /// There is no entry for the track.
    MissingEntry,
    /// The video could not be inspected.
    UnreadableOutput,
}

impl Default for Summary {
    /// A summary without tracks.
    fn default() -> (r: Summary)
        ensures
            r.schema == SCHEMA_VERSION,
            r.profile is None,
            r.entries() == Seq::<Entry>::empty(),
    {
        let r = Summary { schema: SCHEMA_VERSION, profile: None, tracks: Vec::new() };
        proof {
            assert(r.entries() =~= Seq::empty());
        }
        r
    }
}

impl Summary {
    /// The entries of the tracks.
    pub open spec fn entries(self) -> Seq<Entry> {
        entries_of(self.tracks@)
    }

    /// The entries of the tracks by their sources.
    pub open spec fn known(self) -> Map<Seq<char>, Entry> {
        by_source(self.entries())
    }

    /// The summary to start from: the stored one, where its version is
    /// supported, or an empty one where none is stored.
    pub fn load(stored: Option<Summary>) -> (r: Result<Summary, UnsupportedSchema>)
        ensures
            match stored {
                Some(summary) => if summary.schema == SCHEMA_VERSION {
                    r == Ok::<Summary, UnsupportedSchema>(summary)
                } else {
                    r == Err::<Summary, _>(UnsupportedSchema { schema: summary.schema })
                },
                None => r matches Ok(summary) && summary.schema == SCHEMA_VERSION
                    && summary.profile is None && summary.entries() == Seq::<Entry>::empty(),
            },
    {
        match stored {
            Some(summary) => {
                if summary.schema != SCHEMA_VERSION {
                    return Err(UnsupportedSchema { schema: summary.schema });
                }
                Ok(summary)
            },
            None => Ok(Summary::default()),
        }
    }

    /// Settles the selected tracks: an entry that is current is kept, any other
    /// is replaced by a pending one. Returns the positions of the tracks that
    /// are to be rendered. The entries of other tracks are kept, or dropped
    /// where `prune_missing` is set. The profile is also given as compact JSON.
    ///
    /// Where a source could not be inspected, the summary is left without
    /// tracks.
    pub fn prepare(
        &mut self,
        selected: &Vec<ObservedTrack>,
        profile: RunProfile,
        encoded_profile: &[u8],
        overwrite: bool,
        prune_missing: bool,
    ) -> (r: Result<Vec<usize>, UnreadableSource>)
        ensures
            ({
                let known = old(self).known();
                let seen = observations_of(selected@);
                let terms = run_terms(profile, encoded_profile@, overwrite);
                match r {
                    Ok(queue) => {
                        &&& forall|i: int|
                            0 <= i < selected@.len() ==> (#[trigger] selected@[i]).fingerprint is Some
                        &&& final(self).schema == SCHEMA_VERSION
                        &&& final(self).profile == Some(profile)
                        &&& in_source_order(final(self).entries())
                        &&& final(self).known() == prepared(known, seen, terms, prune_missing)
                        &&& queue@.map_values(|position: usize| position as int) == to_render(
                            known,
                            seen,
                            terms,
                        )
                    },
                    Err(unreadable) => {
                        &&& unreadable.position < selected@.len()
                        &&& selected@[unreadable.position as int].fingerprint is None
                        &&& forall|i: int|
                            0 <= i < unreadable.position ==> (#[trigger] selected@[i]).fingerprint is Some
                        &&& final(self).schema == old(self).schema
                        &&& final(self).profile == old(self).profile
                        &&& final(self).entries() == Seq::<Entry>::empty()
                    },
                }
            }),
    {
        let profile_id = RunProfile::id(encoded_profile);
        let limit_millis: Option<u64> = profile.max_duration_millis;
        let ghost known = self.known();
        let ghost seen = observations_of(selected@);
        let ghost terms = run_terms(profile, encoded_profile@, overwrite);
        let mut stored: Vec<TrackSummary> = Vec::new();
        std::mem::swap(&mut stored, &mut self.tracks);
        proof {
            assert(self.entries() =~= Seq::<Entry>::empty());
        }
        let mut catalog = catalog_of(stored);
        let mut queue: Vec<usize> = Vec::new();
        proof {
            assert(seen.take(0) =~= Seq::empty());
        }
        for i in 0..selected.len()
            invariant
                seen == observations_of(selected@),
                terms == run_terms(profile, encoded_profile@, overwrite),
                profile_id@ == terms.profile_id,
                limit_millis == terms.limit_millis,
                overwrite == terms.overwrite,
                self.schema == old(self).schema,
                self.profile == old(self).profile,
                self.entries() == Seq::<Entry>::empty(),
                catalog.ordered(),
                catalog.known() == after_settling(known, seen.take(i as int), terms),
                queue@.map_values(|position: usize| position as int) == to_render(
                    known,
                    seen.take(i as int),
                    terms,
                ),
                forall|k: int|
                    0 <= k < i ==> (#[trigger] selected@[k]).fingerprint is Some,
        {
            let track = &selected[i];
            let ghost before = catalog.known();
            proof {
                assert(seen.take(i + 1).drop_last() =~= seen.take(i as int));
                assert(seen.take(i + 1).last() == track@);
            }
            let fingerprint = match track.fingerprint {
                Some(fingerprint) => fingerprint,
                None => {
                    return Err(UnreadableSource { position: i });
                },
            };
            let previous = catalog.remove(&track.source);
            let (entry, render) = settle(
                previous,
                track,
                fingerprint,
                &profile_id,
                limit_millis,
                overwrite,
                Ghost(before),
                Ghost(terms),
            );
            catalog.insert(entry);
            proof {
                let settled_entry = settled(before, track@, terms);
                assert(before.remove(track.source@).insert(track.source@, settled_entry)
                    =~= before.insert(track.source@, settled_entry));
            }
            if render {
                let ghost old_queue = queue@;
                queue.push(i);
                proof {
                    let as_int = |position: usize| position as int;
                    assert(queue@.map_values(as_int) =~= old_queue.map_values(as_int).push(
                        i as int,
                    ));
                }
            }
        }
        proof {
            assert(seen.take(selected@.len() as int) =~= seen);
        }
        if prune_missing {
            catalog = only_observed(catalog, selected);
        }
        self.schema = SCHEMA_VERSION;
        self.profile = Some(profile);
        self.tracks = catalog.tracks;
        Ok(queue)
    }

    /// Records how the rendering of a track ended, given the size of the video
    /// where it could be inspected. Where a video was made and could not be
    /// inspected, the entry is left without its new size.
    pub fn record(&mut self, outcome: &RenderOutcome, output_bytes: Option<u64>) -> (r: Result<
        (),
        RecordError,
    >)
        ensures
            final(self).schema == old(self).schema,
            final(self).profile == old(self).profile,
            r is Ok <==> lists(old(self).entries(), outcome.source@) && !(outcome.result is Ok
                && output_bytes is None),
            r == Err::<(), _>(RecordError::MissingEntry) <==> !lists(
                old(self).entries(),
                outcome.source@,
            ),
            final(self).entries() == recorded_in(
                old(self).entries(),
                outcome.source@,
                outcome.result,
                output_bytes,
            ),
    {
        let ghost before = self.entries();
        let mut position: usize = 0;
        while position < self.tracks.len() && self.tracks[position].source != outcome.source
            invariant
                self.tracks == old(self).tracks,
                self.schema == old(self).schema,
                self.profile == old(self).profile,
                before == self.entries(),
                position <= self.tracks@.len(),
                forall|i: int| 0 <= i < position ==> (#[trigger] before[i]).source != outcome.source@,
            decreases self.tracks@.len() - position,
        {
            proof {
                assert(before[position as int].source == self.tracks@[position as int].source@);
            }
            position += 1;
        }
        if position == self.tracks.len() {
            return Err(RecordError::MissingEntry);
        }
        proof {
            assert(before[position as int].source == outcome.source@);
            lemma_first_listed(before, outcome.source@, position as int);
        }
        match &outcome.result {
            Ok(stats) => {
                let track = &mut self.tracks[position];
                track.status = TrackStatus::Rendered;
                track.duration_seconds = Some(StoredSeconds::Millis(stats.duration_millis));
                track.elapsed_seconds = Some(StoredSeconds::Millis(stats.elapsed_millis));
                match output_bytes {
                    Some(bytes) => {
                        track.output_bytes = Some(bytes);
                        track.error = None;
                    },
                    None => {
                        proof {
                            assert(self.entries() =~= recorded_in(
                                before,
                                outcome.source@,
                                outcome.result,
                                output_bytes,
                            ));
                        }
                        return Err(RecordError::UnreadableOutput);
                    },
                }
            },
            Err(error) => {
                let track = &mut self.tracks[position];
                track.status = TrackStatus::Failed;
                track.error = Some(error.clone());
            },
        }
        proof {
            assert(self.entries() =~= recorded_in(
                before,
                outcome.source@,
                outcome.result,
                output_bytes,
            ));
        }
        Ok(())
    }

    /// The stored form of a summary, given the summary as indented JSON.
    pub fn document(encoded: Vec<u8>) -> (r: Vec<u8>)
        ensures
            r@ == encoded@.push(0x0au8),
    {
        let mut r = encoded;
        r.push(0x0a);
        r
    }
}

/// The name of the file that a summary is written to before it takes the place
/// of the summary with the given file name.
pub fn temporary_summary_name(name: &str) -> (r: String)
    ensures
        r@ == name@ + ".tmp"@,
{
    let mut r = name.to_owned();
    r.append(".tmp");
    r
}

/// Whether there is an entry with the given source.
pub open spec fn lists(entries: Seq<Entry>, source: Seq<char>) -> bool {
    exists|i: int| 0 <= i < entries.len() && (#[trigger] entries[i]).source == source
}

/// The position of the first entry with the given source.
pub open spec fn first_listed(entries: Seq<Entry>, source: Seq<char>) -> int
    decreases entries.len(),
{
    if entries.len() > 1 && lists(entries.drop_last(), source) {
        first_listed(entries.drop_last(), source)
    } else {
        entries.len() - 1
    }
}

/// The first entry with a source is the one before which no entry has it.
proof fn lemma_first_listed(entries: Seq<Entry>, source: Seq<char>, position: int)
    requires
        0 <= position < entries.len(),
        entries[position].source == source,
        forall|i: int| 0 <= i < position ==> (#[trigger] entries[i]).source != source,
    ensures
        lists(entries, source),
        first_listed(entries, source) == position,
    decreases entries.len(),
{
    let rest = entries.drop_last();
    if position < rest.len() {
        assert(rest[position].source == source);
        assert forall|i: int| 0 <= i < position implies (#[trigger] rest[i]).source != source by {
            assert(rest[i] == entries[i]);
        }
        lemma_first_listed(rest, source, position);
    } else if lists(rest, source) {
        let i = choose|i: int| 0 <= i < rest.len() && (#[trigger] rest[i]).source == source;
        assert(entries[i].source == source);
    }
}

/// An entry after the rendering of its track ended.
pub open spec fn recorded(
    entry: Entry,
    result: Result<RenderStats, String>,
    output_bytes: Option<u64>,
) -> Entry {
    match result {
        Ok(stats) => {
            let rendered = Entry {
                status: TrackStatus::Rendered,
                duration_seconds: Some(StoredSeconds::Millis(stats.duration_millis)),
                elapsed_seconds: Some(StoredSeconds::Millis(stats.elapsed_millis)),
                ..entry
            };
            match output_bytes {
                Some(bytes) => Entry { output_bytes: Some(bytes), error: None, ..rendered },
                None => rendered,
            }
        },
        Err(error) => Entry { status: TrackStatus::Failed, error: Some(error@), ..entry },
    }
}

/// The entries after the rendering of a track ended.
pub open spec fn recorded_in(
    entries: Seq<Entry>,
    source: Seq<char>,
    result: Result<RenderStats, String>,
    output_bytes: Option<u64>,
) -> Seq<Entry> {
    if lists(entries, source) {
        let i = first_listed(entries, source);
        entries.update(i, recorded(entries[i], result, output_bytes))
    } else {
        entries
    }
}

/// The terms of a run with the given profile.
pub open spec fn run_terms(profile: RunProfile, encoded: Seq<u8>, overwrite: bool) -> Terms {
    Terms {
        profile_id: profile::profile_id(encoded),
        limit_millis: profile.max_duration_millis,
        overwrite,
    }
}

/// The known entries when a run starts to render.
pub open spec fn prepared(
    known: Map<Seq<char>, Entry>,
    seen: Seq<Observation>,
    terms: Terms,
    prune_missing: bool,
) -> Map<Seq<char>, Entry> {
    let settled_entries = after_settling(known, seen, terms);
    if prune_missing {
        without_unobserved(settled_entries, seen)
    } else {
        settled_entries
    }
}

/// The given track summaries in order, the last one of each source.
fn catalog_of(stored: Vec<TrackSummary>) -> (r: Catalog)
    ensures
        r.ordered(),
        r.known() == by_source(entries_of(stored@)),
{
    let mut catalog = Catalog::new();
    let ghost entries = entries_of(stored@);
    proof {
        assert(entries.take(0) =~= Seq::empty());
    }
    for track in it: stored
        invariant
            entries == entries_of(it.seq()),
            catalog.ordered(),
            catalog.known() == by_source(entries.take(it.index())),
    {
        proof {
            assert(entries.take(it.index() + 1).drop_last() =~= entries.take(it.index()));
            assert(entries.take(it.index() + 1).last() == track@);
        }
        catalog.insert(track);
    }
    proof {
        assert(entries.take(entries.len() as int) =~= entries);
    }
    catalog
}

/// The entry that a track gets, and whether the track is to be rendered, given
/// the entry that the track had.
fn settle(
    previous: Option<TrackSummary>,
    track: &ObservedTrack,
    fingerprint: Fingerprint,
    profile_id: &String,
    limit_millis: Option<u64>,
    overwrite: bool,
    Ghost(known): Ghost<Map<Seq<char>, Entry>>,
    Ghost(terms): Ghost<Terms>,
) -> (r: (TrackSummary, bool))
    requires
        track.fingerprint == Some(fingerprint),
        profile_id@ == terms.profile_id,
        limit_millis == terms.limit_millis,
        overwrite == terms.overwrite,
        match previous {
            Some(entry) => known.contains_key(track.source@) && entry@ == known[track.source@]
                && entry.source@ == track.source@,
            None => !known.contains_key(track.source@),
        },
    ensures
        r.0@ == settled(known, track@, terms),
        r.0.source@ == track.source@,
        r.1 == !up_to_date(known, track@, terms),
{
    if let Some(entry) = previous {
        let made: bool = match entry.status {
            TrackStatus::Rendered => true,
            TrackStatus::Unchanged => true,
            _ => false,
        };
        if !overwrite && track.output_is_file && entry.source_bytes == fingerprint.bytes
            && entry.source_modified_ns == fingerprint.modified_ns && entry.profile_id
            == *profile_id && made {
            let kept = TrackSummary {
                title: track.title.clone(),
                output: track.output.clone(),
                status: TrackStatus::Unchanged,
                output_bytes: track.output_bytes,
                error: None,
                ..entry
            };
            return (kept, false);
        }
    }
    let duration_seconds: Option<StoredSeconds> = match (track.duration_millis, limit_millis) {
        (Some(duration), Some(limit)) => Some(
            StoredSeconds::Millis(
                if duration <= limit {
                    duration
                } else {
                    limit
                },
            ),
        ),
        (Some(duration), None) => Some(StoredSeconds::Millis(duration)),
        (None, _) => None,
    };
    let pending = TrackSummary {
        source: track.source.clone(),
        title: track.title.clone(),
        output: track.output.clone(),
        source_bytes: fingerprint.bytes,
        source_modified_ns: fingerprint.modified_ns,
        profile_id: profile_id.clone(),
        status: TrackStatus::Pending,
        duration_seconds,
        elapsed_seconds: None,
        output_bytes: None,
        error: None,
    };
    (pending, true)
}

/// Whether one of the selected tracks has the given source.
fn is_observed(selected: &Vec<ObservedTrack>, source: &String) -> (r: bool)
    ensures
        r == observed(observations_of(selected@), source@),
{
    let ghost seen = observations_of(selected@);
    for i in 0..selected.len()
        invariant
            seen == observations_of(selected@),
            forall|k: int| 0 <= k < i ==> (#[trigger] seen[k]).source != source@,
    {
        if selected[i].source == *source {
            proof {
                assert(seen[i as int].source == source@);
            }
            return true;
        }
    }
    false
}

/// The entries of the selected tracks only.
fn only_observed(catalog: Catalog, selected: &Vec<ObservedTrack>) -> (r: Catalog)
    requires
        catalog.ordered(),
    ensures
        r.ordered(),
        r.known() == without_unobserved(catalog.known(), observations_of(selected@)),
{
    let ghost seen = observations_of(selected@);
    let ghost entries = entries_of(catalog.tracks@);
    let mut kept = Catalog::new();
    proof {
        assert(entries.take(0) =~= Seq::empty());
        assert(without_unobserved(by_source(entries.take(0)), seen) =~= Map::empty());
    }
    for track in it: catalog.tracks
        invariant
            seen == observations_of(selected@),
            entries == entries_of(it.seq()),
            kept.ordered(),
            kept.known() == without_unobserved(by_source(entries.take(it.index())), seen),
    {
        let ghost before = by_source(entries.take(it.index()));
        proof {
            assert(entries.take(it.index() + 1).drop_last() =~= entries.take(it.index()));
            assert(entries.take(it.index() + 1).last() == track@);
        }
        if is_observed(selected, &track.source) {
            proof {
                assert(without_unobserved(before.insert(track.source@, track@), seen)
                    =~= without_unobserved(before, seen).insert(track.source@, track@));
            }
            kept.insert(track);
        } else {
            proof {
                assert(without_unobserved(before.insert(track.source@, track@), seen)
                    =~= without_unobserved(before, seen));
            }
        }
    }
    proof {
        assert(entries.take(entries.len() as int) =~= entries);
    }
    kept
}

// ---------------------------------------------------------------------------
// Laws
// ---------------------------------------------------------------------------

/// Settling leaves the sources that are known or observed.
proof fn lemma_settled_sources(
    known: Map<Seq<char>, Entry>,
    seen: Seq<Observation>,
    terms: Terms,
    source: Seq<char>,
)
    ensures
        after_settling(known, seen, terms).contains_key(source) <==> known.contains_key(source)
            || observed(seen, source),
        !observed(seen, source) && known.contains_key(source) ==> after_settling(
            known,
            seen,
            terms,
        )[source] == known[source],
    decreases seen.len(),
{
    if seen.len() > 0 {
        let rest = seen.drop_last();
        lemma_settled_sources(known, rest, terms, source);
        if observed(rest, source) {
            let i = choose|i: int| 0 <= i < rest.len() && (#[trigger] rest[i]).source == source;
            assert(seen[i].source == source);
        }
        if observed(seen, source) && source != seen.last().source {
            let i = choose|i: int| 0 <= i < seen.len() && (#[trigger] seen[i]).source == source;
            assert(rest[i].source == source);
        }
        assert(seen[seen.len() - 1] == seen.last());
    }
}

/// After a run is prepared every selected track has an entry, so that its
/// outcome can be recorded.
pub proof fn law_selected_tracks_are_listed(
    known: Map<Seq<char>, Entry>,
    seen: Seq<Observation>,
    terms: Terms,
    prune_missing: bool,
    entries: Seq<Entry>,
    i: int,
)
    requires
        in_source_order(entries),
        by_source(entries) == prepared(known, seen, terms, prune_missing),
        0 <= i < seen.len(),
    ensures
        lists(entries, seen[i].source),
{
    let source = seen[i].source;
    lemma_settled_sources(known, seen, terms, source);
    assert(observed(seen, source));
    lemma_by_source_ordered(entries);
    assert(by_source(entries).contains_key(source));
    let k = choose|k: int| 0 <= k < entries.len() && (#[trigger] entries[k]).source == source;
    assert(lists(entries, source));
}

/// With pruning, exactly the selected tracks have entries.
pub proof fn law_pruning_keeps_the_selected(
    known: Map<Seq<char>, Entry>,
    seen: Seq<Observation>,
    terms: Terms,
    source: Seq<char>,
)
    ensures
        prepared(known, seen, terms, true).contains_key(source) <==> observed(seen, source),
{
    lemma_settled_sources(known, seen, terms, source);
}

/// Without pruning, the entries of tracks that are not selected stay as they
/// were.
pub proof fn law_other_tracks_are_kept(
    known: Map<Seq<char>, Entry>,
    seen: Seq<Observation>,
    terms: Terms,
    source: Seq<char>,
)
    requires
        !observed(seen, source),
    ensures
        prepared(known, seen, terms, false).contains_key(source) == known.contains_key(source),
        known.contains_key(source) ==> prepared(known, seen, terms, false)[source]
            == known[source],
{
    lemma_settled_sources(known, seen, terms, source);
}

/// Whether no two observed tracks have the same source.
pub open spec fn distinct_sources(seen: Seq<Observation>) -> bool {
    forall|i: int, j: int|
        0 <= i < j < seen.len() ==> (#[trigger] seen[i]).source != (#[trigger] seen[j]).source
}

/// Tracks with different sources are settled independently: each one's entry,
/// and whether it is rendered, follow from what was known of it at first.
pub proof fn law_tracks_are_settled_alone(
    known: Map<Seq<char>, Entry>,
    seen: Seq<Observation>,
    terms: Terms,
    prune_missing: bool,
    i: int,
)
    requires
        distinct_sources(seen),
        0 <= i < seen.len(),
    ensures
        prepared(known, seen, terms, prune_missing)[seen[i].source] == settled(
            known,
            seen[i],
            terms,
        ),
        to_render(known, seen, terms).contains(i) <==> !up_to_date(known, seen[i], terms),
    decreases seen.len(),
{
    let rest = seen.drop_last();
    let last = seen.last();
    let queue = to_render(known, rest, terms);
    assert(distinct_sources(rest)) by {
        assert forall|a: int, b: int| 0 <= a < b < rest.len() implies (#[trigger] rest[a]).source
            != (#[trigger] rest[b]).source by {
            assert(seen[a].source != seen[b].source);
        }
    }
    lemma_queue_positions(known, rest, terms);
    if i < rest.len() {
        law_tracks_are_settled_alone(known, rest, terms, false, i);
        assert(rest[i] == seen[i]);
        assert(seen[i].source != seen[seen.len() - 1].source);
        assert(queue.push(seen.len() - 1).contains(i) <==> queue.contains(i)) by {
            if queue.contains(i) {
                let k = queue.index_of(i);
                assert(queue.push(seen.len() - 1)[k] == i);
            }
        }
    } else {
        assert(!observed(rest, last.source)) by {
            if observed(rest, last.source) {
                let k = choose|k: int|
                    0 <= k < rest.len() && (#[trigger] rest[k]).source == last.source;
                assert(seen[k].source != seen[seen.len() - 1].source);
            }
        }
        lemma_settled_sources(known, rest, terms, last.source);
        assert(queue.push(i)[queue.len() as int] == i);
    }
    lemma_settled_sources(known, seen, terms, seen[i].source);
    assert(observed(seen, seen[i].source));
}

/// The queue holds positions of observed tracks, in ascending order.
proof fn lemma_queue_positions(known: Map<Seq<char>, Entry>, seen: Seq<Observation>, terms: Terms)
    ensures
        forall|k: int|
            0 <= k < to_render(known, seen, terms).len() ==> 0 <= #[trigger] to_render(
                known,
                seen,
                terms,
            )[k] < seen.len(),
        forall|k: int, l: int|
            0 <= k < l < to_render(known, seen, terms).len() ==> #[trigger] to_render(
                known,
                seen,
                terms,
            )[k] < #[trigger] to_render(known, seen, terms)[l],
    decreases seen.len(),
{
    if seen.len() > 0 {
        let (all, rest) = (
            to_render(known, seen, terms),
            to_render(known, seen.drop_last(), terms),
        );
        lemma_queue_positions(known, seen.drop_last(), terms);
        assert(all == rest || all == rest.push(seen.len() - 1));
        assert forall|k: int| 0 <= k < all.len() implies 0 <= #[trigger] all[k] < seen.len() by {
            if k < rest.len() {
                assert(all[k] == rest[k]);
            }
        }
        assert forall|k: int, l: int| 0 <= k < l < all.len() implies #[trigger] all[k]
            < #[trigger] all[l] by {
            assert(all[k] == rest[k]);
            if l < rest.len() {
                assert(all[l] == rest[l]);
            }
        }
    }
}

/// The tracks to render keep the order in which they were selected, each at
/// most once.
pub proof fn law_queue_keeps_the_order(
    known: Map<Seq<char>, Entry>,
    seen: Seq<Observation>,
    terms: Terms,
    k: int,
    l: int,
)
    requires
        0 <= k < l < to_render(known, seen, terms).len(),
    ensures
        0 <= to_render(known, seen, terms)[k] < to_render(known, seen, terms)[l] < seen.len(),
{
    lemma_queue_positions(known, seen, terms);
}

/// No more tracks are rendered than were selected.
pub proof fn law_queue_fits(known: Map<Seq<char>, Entry>, seen: Seq<Observation>, terms: Terms)
    ensures
        to_render(known, seen, terms).len() <= seen.len(),
    decreases seen.len(),
{
    if seen.len() > 0 {
        law_queue_fits(known, seen.drop_last(), terms);
    }
}

/// A run that overwrites renders every selected track.
pub proof fn law_overwriting_renders_all(
    known: Map<Seq<char>, Entry>,
    seen: Seq<Observation>,
    terms: Terms,
)
    requires
        terms.overwrite,
    ensures
        to_render(known, seen, terms) == Seq::new(seen.len(), |i: int| i),
    decreases seen.len(),
{
    if seen.len() > 0 {
        law_overwriting_renders_all(known, seen.drop_last(), terms);
        assert(to_render(known, seen, terms) =~= Seq::new(seen.len(), |i: int| i));
    } else {
        assert(to_render(known, seen, terms) =~= Seq::new(seen.len(), |i: int| i));
    }
}

/// Recording an outcome changes no source and no other entry, and keeps the
/// entries in order.
pub proof fn law_recording_touches_one_entry(
    entries: Seq<Entry>,
    source: Seq<char>,
    result: Result<RenderStats, String>,
    output_bytes: Option<u64>,
    i: int,
)
    requires
        in_source_order(entries),
        0 <= i < entries.len(),
    ensures
        in_source_order(recorded_in(entries, source, result, output_bytes)),
        recorded_in(entries, source, result, output_bytes).len() == entries.len(),
        recorded_in(entries, source, result, output_bytes)[i].source == entries[i].source,
        entries[i].source != source ==> recorded_in(entries, source, result, output_bytes)[i]
            == entries[i],
        entries[i].source == source ==> recorded_in(entries, source, result, output_bytes)[i]
            == recorded(entries[i], result, output_bytes),
{
    let after = recorded_in(entries, source, result, output_bytes);
    if lists(entries, source) {
        let k = choose|k: int| 0 <= k < entries.len() && (#[trigger] entries[k]).source == source;
        order::lemma_before_irreflexive(order::code_points(source));
        assert forall|j: int| 0 <= j < entries.len() && (#[trigger] entries[j]).source
            == source implies j == k by {
            if j < k {
                assert(order::text_before(entries[j].source, entries[k].source));
            }
            if k < j {
                assert(order::text_before(entries[k].source, entries[j].source));
            }
        }
        lemma_first_listed(entries, source, k);
        assert forall|a: int, b: int| 0 <= a < b < after.len() implies order::text_before(
            (#[trigger] after[a]).source,
            (#[trigger] after[b]).source,
        ) by {
            assert(after[a].source == entries[a].source);
            assert(after[b].source == entries[b].source);
        }
        if entries[i].source == source {
            assert(i == k);
        }
    } else {
        assert(entries[i].source != source);
    }
}

/// A track that was rendered is current for later runs: as long as its source
/// and the profile stay the same and its video is there, a run that does not
/// overwrite leaves it out.
pub proof fn law_rendered_track_is_current(
    entries: Seq<Entry>,
    seen: Observation,
    terms: Terms,
    stats: RenderStats,
    output_bytes: u64,
    later: Observation,
    later_terms: Terms,
)
    requires
        in_source_order(entries),
        lists(entries, seen.source),
        by_source(entries)[seen.source] == pending_entry(seen, terms),
        seen.fingerprint is Some,
        later.source == seen.source,
        later.fingerprint == seen.fingerprint,
        later.output_is_file,
        later_terms.profile_id == terms.profile_id,
        !later_terms.overwrite,
    ensures
        up_to_date(
            by_source(recorded_in(entries, seen.source, Ok(stats), Some(output_bytes))),
            later,
            later_terms,
        ),
{
    let after = recorded_in(entries, seen.source, Ok(stats), Some(output_bytes));
    let k = choose|k: int| 0 <= k < entries.len() && (#[trigger] entries[k]).source == seen.source;
    law_recording_touches_one_entry(entries, seen.source, Ok(stats), Some(output_bytes), k);
    lemma_by_source_ordered(entries);
    lemma_by_source_ordered(after);
    assert(after[k].source == seen.source);
    assert(by_source(after)[seen.source] == after[k]);
}

/// A track whose rendering failed is rendered again by later runs.
pub proof fn law_failed_track_is_rendered_again(
    entries: Seq<Entry>,
    source: Seq<char>,
    error: String,
    output_bytes: Option<u64>,
    later: Observation,
    later_terms: Terms,
)
    requires
        in_source_order(entries),
        lists(entries, source),
        later.source == source,
    ensures
        !up_to_date(
            by_source(recorded_in(entries, source, Err(error), output_bytes)),
            later,
            later_terms,
        ),
{
    let after = recorded_in(entries, source, Err(error), output_bytes);
    let k = choose|k: int| 0 <= k < entries.len() && (#[trigger] entries[k]).source == source;
    law_recording_touches_one_entry(entries, source, Err(error), output_bytes, k);
    lemma_by_source_ordered(after);
    assert(after[k].source == source);
    assert(by_source(after)[source] == after[k]);
}

/// A track that is current stays so: settling it a second time on the same terms
/// finds it current again and leaves its entry as it is.
pub proof fn law_current_track_stays_current(
    known: Map<Seq<char>, Entry>,
    seen: Observation,
    terms: Terms,
)
    requires
        up_to_date(known, seen, terms),
    ensures
        ({
            let after = known.insert(seen.source, settled(known, seen, terms));
            up_to_date(after, seen, terms) && settled(after, seen, terms) == settled(
                known,
                seen,
                terms,
            )
        }),
{
}

/// A track whose source or profile has changed, or whose video is gone, is
/// rendered.
pub proof fn law_changed_track_is_rendered(
    known: Map<Seq<char>, Entry>,
    seen: Observation,
    terms: Terms,
)
    requires
        known.contains_key(seen.source) ==> {
            let entry = known[seen.source];
            ||| !seen.output_is_file
            ||| entry.profile_id != terms.profile_id
            ||| seen.fingerprint != Some(
                Fingerprint { bytes: entry.source_bytes, modified_ns: entry.source_modified_ns },
            )
        },
    ensures
        !up_to_date(known, seen, terms),
        settled(known, seen, terms) == pending_entry(seen, terms),
{
}

/// The entries after tracks were rendered one after the other, given what each
/// rendering took and the sizes of the videos.
pub open spec fn all_recorded(
    entries: Seq<Entry>,
    sources: Seq<Seq<char>>,
    stats: Seq<RenderStats>,
    sizes: Seq<u64>,
) -> Seq<Entry>
    decreases sources.len(),
{
    if sources.len() == 0 {
        entries
    } else {
        recorded_in(
            all_recorded(entries, sources.drop_last(), stats.drop_last(), sizes.drop_last()),
            sources.last(),
            Ok(stats.last()),
            Some(sizes.last()),
        )
    }
}

/// The sources of the tracks at the given positions.
pub open spec fn queued_sources(seen: Seq<Observation>, queue: Seq<int>) -> Seq<Seq<char>> {
    queue.map_values(|i: int| seen[i].source)
}

/// Whether an entry is of the observed source and profile, made or not.
spec fn matching(entry: Entry, seen: Observation, terms: Terms) -> bool {
    &&& seen.fingerprint == Some(
        Fingerprint { bytes: entry.source_bytes, modified_ns: entry.source_modified_ns },
    )
    &&& entry.profile_id == terms.profile_id
}

/// Recording a rendered track makes its entry that of a made video and keeps
/// what the others say.
proof fn lemma_recorded(
    entries: Seq<Entry>,
    source: Seq<char>,
    stats: RenderStats,
    size: u64,
    other: Seq<char>,
)
    requires
        in_source_order(entries),
        by_source(entries).contains_key(other),
    ensures
        ({
            let after = recorded_in(entries, source, Ok(stats), Some(size));
            let (was, is) = (by_source(entries)[other], by_source(after)[other]);
            &&& in_source_order(after)
            &&& by_source(after).contains_key(other)
            &&& is.source_bytes == was.source_bytes
            &&& is.source_modified_ns == was.source_modified_ns
            &&& is.profile_id == was.profile_id
            &&& is.status.made() == (was.status.made() || source == other)
        }),
{
    let after = recorded_in(entries, source, Ok(stats), Some(size));
    lemma_by_source_ordered(entries);
    let k = choose|k: int| 0 <= k < entries.len() && (#[trigger] entries[k]).source == other;
    law_recording_touches_one_entry(entries, source, Ok(stats), Some(size), k);
    lemma_by_source_ordered(after);
    assert(after[k].source == other);
    assert(by_source(entries)[other] == entries[k]);
    assert(by_source(after)[other] == after[k]);
}

/// After the first of the queued tracks were recorded, every selected track has
/// a matching entry, which is that of a made video unless it still waits.
proof fn lemma_all_recorded(
    known: Map<Seq<char>, Entry>,
    seen: Seq<Observation>,
    terms: Terms,
    prune_missing: bool,
    entries: Seq<Entry>,
    queue: Seq<int>,
    stats: Seq<RenderStats>,
    sizes: Seq<u64>,
    i: int,
)
    requires
        distinct_sources(seen),
        forall|k: int| 0 <= k < seen.len() ==> (#[trigger] seen[k]).fingerprint is Some,
        in_source_order(entries),
        by_source(entries) == prepared(known, seen, terms, prune_missing),
        forall|k: int| 0 <= k < queue.len() ==> 0 <= #[trigger] queue[k] < seen.len(),
        stats.len() == queue.len(),
        sizes.len() == queue.len(),
        0 <= i < seen.len(),
    ensures
        ({
            let after = all_recorded(entries, queued_sources(seen, queue), stats, sizes);
            &&& in_source_order(after)
            &&& by_source(after).contains_key(seen[i].source)
            &&& matching(by_source(after)[seen[i].source], seen[i], terms)
            &&& queue.contains(i) || up_to_date(known, seen[i], terms)
                ==> by_source(after)[seen[i].source].status.made()
        }),
    decreases queue.len(),
{
    let source = seen[i].source;
    if queue.len() == 0 {
        law_tracks_are_settled_alone(known, seen, terms, prune_missing, i);
        lemma_settled_sources(known, seen, terms, source);
        assert(observed(seen, source));
        assert(queued_sources(seen, queue) =~= Seq::empty());
    } else {
        let rest = queue.drop_last();
        let sources = queued_sources(seen, queue);
        assert(sources.drop_last() =~= queued_sources(seen, rest));
        lemma_all_recorded(
            known,
            seen,
            terms,
            prune_missing,
            entries,
            rest,
            stats.drop_last(),
            sizes.drop_last(),
            i,
        );
        let before = all_recorded(
            entries,
            queued_sources(seen, rest),
            stats.drop_last(),
            sizes.drop_last(),
        );
        lemma_recorded(before, sources.last(), stats.last(), sizes.last(), source);
        assert(sources.last() == seen[queue.last()].source);
        if queue.contains(i) && !rest.contains(i) {
            let k = queue.index_of(i);
            if k < rest.len() {
                assert(rest[k] == i);
            }
            assert(queue.last() == i);
        }
    }
}

/// A run after one in which every queued track was rendered, in whatever order the
/// tracks ended, has nothing to render, as long as sources, videos and the profile
/// stay the same and nothing is overwritten.
pub proof fn law_second_run_renders_nothing(
    known: Map<Seq<char>, Entry>,
    seen: Seq<Observation>,
    terms: Terms,
    prune_missing: bool,
    entries: Seq<Entry>,
    ended: Seq<int>,
    stats: Seq<RenderStats>,
    sizes: Seq<u64>,
    later: Seq<Observation>,
    later_terms: Terms,
)
    requires
        distinct_sources(seen),
        forall|i: int| 0 <= i < seen.len() ==> (#[trigger] seen[i]).fingerprint is Some,
        in_source_order(entries),
        by_source(entries) == prepared(known, seen, terms, prune_missing),
        forall|k: int| 0 <= k < ended.len() ==> 0 <= #[trigger] ended[k] < seen.len(),
        forall|i: int| #[trigger]
            to_render(known, seen, terms).contains(i) ==> ended.contains(i),
        stats.len() == ended.len(),
        sizes.len() == ended.len(),
        later.len() == seen.len(),
        forall|i: int|
            0 <= i < later.len() ==> (#[trigger] later[i]).source == seen[i].source
                && later[i].fingerprint == seen[i].fingerprint && later[i].output_is_file,
        later_terms.profile_id == terms.profile_id,
        !later_terms.overwrite,
    ensures
        to_render(
            by_source(all_recorded(entries, queued_sources(seen, ended), stats, sizes)),
            later,
            later_terms,
        ) == Seq::<int>::empty(),
{
    let after = by_source(all_recorded(entries, queued_sources(seen, ended), stats, sizes));
    let again = to_render(after, later, later_terms);
    lemma_queue_positions(known, seen, terms);
    lemma_queue_positions(after, later, later_terms);
    assert(distinct_sources(later)) by {
        assert forall|a: int, b: int| 0 <= a < b < later.len() implies (#[trigger] later[a]).source
            != (#[trigger] later[b]).source by {
            assert(seen[a].source != seen[b].source);
        }
    }
    if again.len() > 0 {
        let i = again[0];
        assert(again.contains(i));
        law_tracks_are_settled_alone(known, seen, terms, prune_missing, i);
        law_tracks_are_settled_alone(after, later, later_terms, false, i);
        lemma_all_recorded(
            known,
            seen,
            terms,
            prune_missing,
            entries,
            ended,
            stats,
            sizes,
            i,
        );
        assert(later[i].source == seen[i].source);
    }
    assert(again =~= Seq::empty());
}

// ---------------------------------------------------------------------------
// Laws of the summary's operations
// ---------------------------------------------------------------------------

/// The statuses are stored under the words for them, and found again by these.
pub proof fn law_status_is_read_back(
    status: TrackStatus,
    name: &'static str,
    found: Option<TrackStatus>,
)
    requires
        call_ensures(TrackStatus::name, (status,), name),
        call_ensures(TrackStatus::from_name, (name,), found),
    ensures
        found == Some(status),
        status is Pending <==> name@ == "pending"@,
        status is Rendered <==> name@ == "rendered"@,
        status is Unchanged <==> name@ == "unchanged"@,
        status is Failed <==> name@ == "failed"@,
{
    law_status_names_differ(status, TrackStatus::Pending);
    law_status_names_differ(status, TrackStatus::Rendered);
    law_status_names_differ(status, TrackStatus::Unchanged);
    law_status_names_differ(status, TrackStatus::Failed);
    if found is None {
        assert(status.spec_name() != name@);
    }
}

/// Of the entries with a source the last one is known under it.
pub proof fn law_last_entry_is_known(entries: Seq<Entry>, i: int)
    requires
        0 <= i < entries.len(),
        forall|k: int| i < k < entries.len() ==> (#[trigger] entries[k]).source
            != entries[i].source,
    ensures
        by_source(entries).contains_key(entries[i].source),
        by_source(entries)[entries[i].source] == entries[i],
    decreases entries.len(),
{
    if i < entries.len() - 1 {
        let rest = entries.drop_last();
        assert(rest[i] == entries[i]);
        assert forall|k: int| i < k < rest.len() implies (#[trigger] rest[k]).source
            != rest[i].source by {
            assert(entries[k].source != entries[i].source);
        }
        law_last_entry_is_known(rest, i);
        assert(entries[entries.len() - 1].source != entries[i].source);
    }
}

/// A source is known exactly where it has an entry.
pub proof fn law_known_sources_are_listed(entries: Seq<Entry>, source: Seq<char>)
    ensures
        by_source(entries).contains_key(source) <==> exists|i: int|
            0 <= i < entries.len() && (#[trigger] entries[i]).source == source,
    decreases entries.len(),
{
    if entries.len() > 0 {
        let rest = entries.drop_last();
        law_known_sources_are_listed(rest, source);
        if by_source(rest).contains_key(source) {
            let i = choose|i: int| 0 <= i < rest.len() && (#[trigger] rest[i]).source == source;
            assert(entries[i].source == source);
        }
        assert(entries[entries.len() - 1] == entries.last());
        if lists(entries, source) && entries.last().source != source {
            let i = choose|i: int|
                0 <= i < entries.len() && (#[trigger] entries[i]).source == source;
            assert(rest[i].source == source);
        }
    }
}

/// A fingerprint is the size and the age of a file. An age that is not known counts
/// as none, and one that is too great as the greatest.
pub proof fn law_fingerprint_is_size_and_age(
    bytes: u64,
    modified_ns: Option<u128>,
    r: Fingerprint,
)
    requires
        call_ensures(source_fingerprint, (bytes, modified_ns), r),
    ensures
        r.bytes == bytes,
        modified_ns is None ==> r.modified_ns == 0,
        modified_ns matches Some(ns) ==> {
            &&& ns <= u64::MAX ==> r.modified_ns == ns
            &&& ns > u64::MAX ==> r.modified_ns == u64::MAX
        },
{
}

/// A path is named by as many characters as it has, each backslash turned into `/`
/// and any other kept.
pub proof fn law_only_backslashes_are_turned(path: &str, r: String)
    requires
        call_ensures(portable_name, (path,), r),
    ensures
        r@.len() == path@.len(),
        forall|i: int|
            0 <= i < r@.len() ==> if path@[i] == '\\' {
                #[trigger] r@[i] == '/'
            } else {
                r@[i] == path@[i]
            },
{
}

/// A path that lies below the project is named by the part that is left of it, and
/// any other by all of it; backslashes are turned either way.
pub proof fn law_paths_are_named_below_the_project(
    path: &str,
    project_root: &str,
    below: Option<String>,
    name: String,
    r: String,
)
    requires
        call_ensures(portable_path, (path, project_root), r),
        call_ensures(paths::below_root, (path, project_root), below),
        call_ensures(portable_name, (path,), name),
    ensures
        below is None ==> r@ == name@,
        below matches Some(part) ==> {
            &&& r@.len() == part@.len()
            &&& forall|i: int|
                0 <= i < r@.len() ==> if part@[i] == '\\' {
                    #[trigger] r@[i] == '/'
                } else {
                    r@[i] == part@[i]
                }
        },
{
}

/// A stored summary is taken as it is where it is of the first version, and refused
/// with its version where it is of another. Without one, a summary of the first
/// version without tracks is taken.
pub proof fn law_summary_is_taken_as_stored(
    stored: Option<Summary>,
    r: Result<Summary, UnsupportedSchema>,
)
    requires
        call_ensures(Summary::load, (stored,), r),
    ensures
        stored matches Some(summary) ==> {
            &&& summary.schema == 1 ==> r == Ok::<Summary, UnsupportedSchema>(summary)
            &&& summary.schema != 1 ==> (r matches Err(error) && error.schema == summary.schema)
        },
        stored is None ==> (r matches Ok(summary) && summary.schema == 1 && summary.profile is None
            && summary.tracks@.len() == 0),
{
    if stored is None {
        let summary = r->Ok_0;
        assert(summary.entries().len() == summary.tracks@.len());
    }
}

/// The stored form is what was encoded and a line end, so that what was encoded can
/// be taken from it again.
pub proof fn law_document_ends_its_line(encoded: Vec<u8>, r: Vec<u8>)
    requires
        call_ensures(Summary::document, (encoded,), r),
    ensures
        r@.len() == encoded@.len() + 1,
        r@.drop_last() == encoded@,
        r@.last() == '\n' as u8,
{
    assert(r@.drop_last() =~= encoded@);
    assert('\n' as u8 == 0x0au8);
}

/// A summary is first written to another file beside its own, whose name starts
/// with its name.
pub proof fn law_summary_is_written_beside_itself(name: &str, r: String)
    requires
        call_ensures(temporary_summary_name, (name,), r),
    ensures
        r@ != name@,
        name@.is_prefix_of(r@),
        r@.skip(name@.len() as int) == ".tmp"@,
{
    reveal_strlit(".tmp");
    assert(r@.skip(name@.len() as int) =~= ".tmp"@);
    assert(name@ =~= r@.take(name@.len() as int));
}

/// Whether the summary says of a track that its video was made from a source of the
/// given size and age under the given profile.
pub open spec fn made_from(entry: Entry, fingerprint: Fingerprint, profile_id: Seq<char>) -> bool {
    &&& entry.source_bytes == fingerprint.bytes
    &&& entry.source_modified_ns == fingerprint.modified_ns
    &&& entry.profile_id == profile_id
    &&& entry.status == TrackStatus::Rendered || entry.status == TrackStatus::Unchanged
}

/// Whether a run leaves a track out: it does not overwrite, the video is there, and
/// the summary says that it was made from the source as it is under the profile.
pub open spec fn left_out(
    known: Map<Seq<char>, Entry>,
    track: ObservedTrack,
    profile_id: Seq<char>,
    overwrite: bool,
) -> bool {
    &&& !overwrite
    &&& track.output_is_file
    &&& known.contains_key(track.source@)
    &&& track.fingerprint matches Some(fingerprint) && made_from(
        known[track.source@],
        fingerprint,
        profile_id,
    )
}

/// Whether no two selected tracks have the same source.
pub open spec fn sources_differ(selected: Seq<ObservedTrack>) -> bool {
    forall|i: int, j: int|
        0 <= i < j < selected.len() ==> (#[trigger] selected[i]).source@ != (
        #[trigger] selected[j]).source@
}

/// Whether the length of a video is the right one: that of the source where no limit
/// is set, and otherwise the smaller of the two. It is not known exactly where that of
/// the source is not.
pub open spec fn rightly_limited(
    stored: Option<StoredSeconds>,
    duration_millis: Option<u64>,
    limit_millis: Option<u64>,
) -> bool {
    &&& stored is None <==> duration_millis is None
    &&& duration_millis matches Some(duration) ==> stored matches Some(seconds)
        && seconds matches StoredSeconds::Millis(millis) && {
        &&& millis <= duration
        &&& limit_millis is None ==> millis == duration
        &&& limit_millis matches Some(limit) ==> millis <= limit && (millis == duration || millis
            == limit)
    }
}

/// What a run is prepared with, step by step.
proof fn lemma_prepare(
    summary: &mut Summary,
    selected: &Vec<ObservedTrack>,
    profile: RunProfile,
    encoded: &[u8],
    overwrite: bool,
    prune_missing: bool,
    queue: Vec<usize>,
    i: usize,
)
    requires
        call_ensures(
            Summary::prepare,
            (summary, selected, profile, encoded, overwrite, prune_missing),
            Ok(queue),
        ),
        sources_differ(selected@),
        i < selected@.len(),
    ensures
        ({
            let known = old(summary).known();
            let terms = run_terms(profile, encoded@, overwrite);
            let seen = selected@[i as int]@;
            &&& final(summary).known().contains_key(seen.source)
            &&& final(summary).known()[seen.source] == settled(known, seen, terms)
            &&& queue@.contains(i) == !up_to_date(known, seen, terms)
        }),
{
    let known = old(summary).known();
    let seen = observations_of(selected@);
    let terms = run_terms(profile, encoded@, overwrite);
    assert(distinct_sources(seen)) by {
        assert forall|a: int, b: int| 0 <= a < b < seen.len() implies (#[trigger] seen[a]).source
            != (#[trigger] seen[b]).source by {
            assert(selected@[a].source@ != selected@[b].source@);
        }
    }
    law_tracks_are_settled_alone(known, seen, terms, prune_missing, i as int);
    lemma_settled_sources(known, seen, terms, seen[i as int].source);
    assert(observed(seen, seen[i as int].source));
    assert(seen[i as int] == selected@[i as int]@);
    let as_int = |position: usize| position as int;
    let positions = queue@.map_values(as_int);
    assert(positions == to_render(known, seen, terms));
    if queue@.contains(i) {
        let k = queue@.index_of(i);
        assert(positions[k] == i);
    }
    if positions.contains(i as int) {
        let k = positions.index_of(i as int);
        assert(queue@[k] == i);
    }
}

/// A run renders exactly those of the selected tracks that it does not leave out.
pub proof fn law_tracks_that_are_not_current_are_rendered(
    summary: &mut Summary,
    selected: &Vec<ObservedTrack>,
    profile: RunProfile,
    encoded: &[u8],
    overwrite: bool,
    prune_missing: bool,
    queue: Vec<usize>,
    id: String,
    i: usize,
)
    requires
        call_ensures(
            Summary::prepare,
            (summary, selected, profile, encoded, overwrite, prune_missing),
            Ok(queue),
        ),
        call_ensures(RunProfile::id, (encoded,), id),
        sources_differ(selected@),
        i < selected@.len(),
    ensures
        queue@.contains(i) <==> !left_out(
            old(summary).known(),
            selected@[i as int],
            id@,
            overwrite,
        ),
{
    lemma_prepare(summary, selected, profile, encoded, overwrite, prune_missing, queue, i);
}

/// A track that is to be rendered gets a new entry: what was observed of it, the
/// profile of the run, and the length that its video will have. It is pending, and
/// nothing is left of an earlier rendering.
pub proof fn law_queued_track_is_pending(
    summary: &mut Summary,
    selected: &Vec<ObservedTrack>,
    profile: RunProfile,
    encoded: &[u8],
    overwrite: bool,
    prune_missing: bool,
    queue: Vec<usize>,
    id: String,
    i: usize,
)
    requires
        call_ensures(
            Summary::prepare,
            (summary, selected, profile, encoded, overwrite, prune_missing),
            Ok(queue),
        ),
        call_ensures(RunProfile::id, (encoded,), id),
        sources_differ(selected@),
        i < selected@.len(),
        queue@.contains(i),
        selected@[i as int].fingerprint is Some,
    ensures
        ({
            let track = selected@[i as int];
            let entry = final(summary).known()[track.source@];
            &&& final(summary).known().contains_key(track.source@)
            &&& entry.source == track.source@
            &&& entry.title == track.title@
            &&& entry.output == track.output@
            &&& entry.status == TrackStatus::Pending
            &&& Some((entry.source_bytes, entry.source_modified_ns)) == Some(
                (track.fingerprint->0.bytes, track.fingerprint->0.modified_ns),
            )
            &&& entry.profile_id == id@
            &&& rightly_limited(
                entry.duration_seconds,
                track.duration_millis,
                profile.max_duration_millis,
            )
            &&& entry.elapsed_seconds is None
            &&& entry.output_bytes is None
            &&& entry.error is None
        }),
{
    lemma_prepare(summary, selected, profile, encoded, overwrite, prune_missing, queue, i);
}

/// A track that is left out keeps its entry, with the title, the place and the size
/// of its video as they are now. It is unchanged, and has no error.
pub proof fn law_current_track_keeps_its_entry(
    summary: &mut Summary,
    selected: &Vec<ObservedTrack>,
    profile: RunProfile,
    encoded: &[u8],
    overwrite: bool,
    prune_missing: bool,
    queue: Vec<usize>,
    i: usize,
)
    requires
        call_ensures(
            Summary::prepare,
            (summary, selected, profile, encoded, overwrite, prune_missing),
            Ok(queue),
        ),
        sources_differ(selected@),
        i < selected@.len(),
        !queue@.contains(i),
    ensures
        ({
            let track = selected@[i as int];
            let before = old(summary).known()[track.source@];
            let entry = final(summary).known()[track.source@];
            &&& old(summary).known().contains_key(track.source@)
            &&& final(summary).known().contains_key(track.source@)
            &&& entry.title == track.title@
            &&& entry.output == track.output@
            &&& entry.output_bytes == track.output_bytes
            &&& entry.status == TrackStatus::Unchanged
            &&& entry.error is None
            &&& entry.source == before.source
            &&& entry.source_bytes == before.source_bytes
            &&& entry.source_modified_ns == before.source_modified_ns
            &&& entry.profile_id == before.profile_id
            &&& entry.duration_seconds == before.duration_seconds
            &&& entry.elapsed_seconds == before.elapsed_seconds
        }),
{
    lemma_prepare(summary, selected, profile, encoded, overwrite, prune_missing, queue, i);
}

/// The tracks to render come in the order in which they were selected, each once.
/// A prepared summary is of the first version, holds the profile of the run, and is
/// ordered by source, each source once.
pub proof fn law_prepared_summary_is_in_order(
    summary: &mut Summary,
    selected: &Vec<ObservedTrack>,
    profile: RunProfile,
    encoded: &[u8],
    overwrite: bool,
    prune_missing: bool,
    queue: Vec<usize>,
    i: int,
    j: int,
    k: int,
)
    requires
        call_ensures(
            Summary::prepare,
            (summary, selected, profile, encoded, overwrite, prune_missing),
            Ok(queue),
        ),
    ensures
        final(summary).schema == 1,
        final(summary).profile == Some(profile),
        0 <= i < j < queue@.len() ==> queue@[i] < queue@[j] < selected@.len(),
        0 <= i < j < final(summary).tracks@.len() ==> !order::texts_decided_at(
            final(summary).tracks@[j].source@,
            final(summary).tracks@[i].source@,
            k,
        ) && final(summary).tracks@[j].source@ != final(summary).tracks@[i].source@,
{
    let known = old(summary).known();
    let seen = observations_of(selected@);
    let terms = run_terms(profile, encoded@, overwrite);
    lemma_queue_positions(known, seen, terms);
    let positions = queue@.map_values(|position: usize| position as int);
    if 0 <= i < j < queue@.len() {
        assert(positions[i] == queue@[i] && positions[j] == queue@[j]);
    }
    if 0 <= i < j < final(summary).tracks@.len() {
        let entries = final(summary).entries();
        let (a, b) = (entries[i].source, entries[j].source);
        assert(order::text_before(a, b));
        order::lemma_before_irreflexive(order::code_points(a));
        if order::texts_decided_at(b, a, k) {
            order::law_texts_are_in_dictionary_order(b, a);
            order::lemma_before_transitive(
                order::code_points(a),
                order::code_points(b),
                order::code_points(a),
            );
        }
    }
}

/// A run that selects all tracks keeps the entries of these only. Any other keeps the
/// entries of the tracks that it did not select as they are.
pub proof fn law_other_entries_are_pruned_or_kept(
    summary: &mut Summary,
    selected: &Vec<ObservedTrack>,
    profile: RunProfile,
    encoded: &[u8],
    overwrite: bool,
    prune_missing: bool,
    queue: Vec<usize>,
    source: Seq<char>,
)
    requires
        call_ensures(
            Summary::prepare,
            (summary, selected, profile, encoded, overwrite, prune_missing),
            Ok(queue),
        ),
        forall|i: int| 0 <= i < selected@.len() ==> (#[trigger] selected@[i]).source@ != source,
    ensures
        prune_missing ==> !final(summary).known().contains_key(source),
        !prune_missing ==> final(summary).known().contains_key(source)
            == old(summary).known().contains_key(source),
        !prune_missing && old(summary).known().contains_key(source)
            ==> final(summary).known()[source] == old(summary).known()[source],
{
    let seen = observations_of(selected@);
    let terms = run_terms(profile, encoded@, overwrite);
    assert(!observed(seen, source)) by {
        if observed(seen, source) {
            let i = choose|i: int| 0 <= i < seen.len() && (#[trigger] seen[i]).source == source;
            assert(selected@[i].source@ == source);
        }
    }
    lemma_settled_sources(old(summary).known(), seen, terms, source);
}

/// A summary is prepared exactly where every selected source could be inspected;
/// otherwise the first that could not be is told.
pub proof fn law_unreadable_source_stops_a_run(
    summary: &mut Summary,
    selected: &Vec<ObservedTrack>,
    profile: RunProfile,
    encoded: &[u8],
    overwrite: bool,
    prune_missing: bool,
    r: Result<Vec<usize>, UnreadableSource>,
    i: int,
)
    requires
        call_ensures(
            Summary::prepare,
            (summary, selected, profile, encoded, overwrite, prune_missing),
            r,
        ),
        0 <= i < selected@.len(),
    ensures
        r is Ok ==> selected@[i].fingerprint is Some,
        r matches Err(unreadable) ==> {
            &&& unreadable.position < selected@.len()
            &&& selected@[unreadable.position as int].fingerprint is None
            &&& i < unreadable.position ==> selected@[i].fingerprint is Some
        },
{
}

/// Recording an outcome changes the first entry of its source only. A rendered track
/// has the length of its video and the time that it took; where the size of the video
/// is known it has that too, and no error. A failed track has its error, and keeps all
/// else.
pub proof fn law_outcome_is_recorded(
    summary: &mut Summary,
    outcome: &RenderOutcome,
    output_bytes: Option<u64>,
    r: Result<(), RecordError>,
    i: int,
)
    requires
        call_ensures(Summary::record, (summary, outcome, output_bytes), r),
        0 <= i < old(summary).tracks@.len(),
        old(summary).tracks@[i].source@ == outcome.source@,
        forall|k: int|
            0 <= k < i ==> (#[trigger] old(summary).tracks@[k]).source@ != outcome.source@,
    ensures
        ({
            let before = old(summary).tracks@[i]@;
            let after = final(summary).tracks@[i]@;
            &&& final(summary).tracks@.len() == old(summary).tracks@.len()
            &&& forall|k: int|
                0 <= k < old(summary).tracks@.len() && k != i ==> (
                #[trigger] final(summary).tracks@[k])@ == old(summary).tracks@[k]@
            &&& after.source == before.source && after.title == before.title && after.output
                == before.output && after.source_bytes == before.source_bytes
                && after.source_modified_ns == before.source_modified_ns && after.profile_id
                == before.profile_id
            &&& outcome.result matches Ok(stats) ==> {
                &&& after.status == TrackStatus::Rendered
                &&& after.duration_seconds == Some(StoredSeconds::Millis(stats.duration_millis))
                &&& after.elapsed_seconds == Some(StoredSeconds::Millis(stats.elapsed_millis))
                &&& output_bytes is Some ==> after.output_bytes == output_bytes && after.error
                    is None && r is Ok
                &&& output_bytes is None ==> after.output_bytes == before.output_bytes
                    && after.error == before.error && r == Err::<(), _>(
                    RecordError::UnreadableOutput,
                )
            }
            &&& outcome.result matches Err(error) ==> {
                &&& after.status == TrackStatus::Failed
                &&& after.error == Some(error@)
                &&& after.duration_seconds == before.duration_seconds
                &&& after.elapsed_seconds == before.elapsed_seconds
                &&& after.output_bytes == before.output_bytes
                &&& r is Ok
            }
        }),
{
    let (before, after) = (old(summary).entries(), final(summary).entries());
    let source = outcome.source@;
    assert forall|k: int| 0 <= k < i implies (#[trigger] before[k]).source != source by {
        assert(old(summary).tracks@[k].source@ != source);
    }
    lemma_first_listed(before, source, i);
    assert(before.len() == old(summary).tracks@.len());
    assert(after.len() == final(summary).tracks@.len());
    assert forall|k: int| 0 <= k < after.len() implies after[k]
        == final(summary).tracks@[k]@ by {}
    assert forall|k: int| 0 <= k < old(summary).tracks@.len() && k != i implies (
    #[trigger] final(summary).tracks@[k])@ == old(summary).tracks@[k]@ by {
        assert(after[k] == before[k]);
    }
    assert(after[i] == recorded(before[i], outcome.result, output_bytes));
    assert(lists(before, source));
    if r is Err {
        let error = r->Err_0;
        assert(error is MissingEntry || error is UnreadableOutput);
        assert(error !is MissingEntry);
    }
}

/// The outcome of a track without an entry is not recorded, and changes nothing.
pub proof fn law_unknown_track_is_not_recorded(
    summary: &mut Summary,
    outcome: &RenderOutcome,
    output_bytes: Option<u64>,
    r: Result<(), RecordError>,
)
    requires
        call_ensures(Summary::record, (summary, outcome, output_bytes), r),
        forall|k: int|
            0 <= k < old(summary).tracks@.len() ==> (#[trigger] old(summary).tracks@[k]).source@
                != outcome.source@,
    ensures
        r == Err::<(), _>(RecordError::MissingEntry),
        final(summary).entries() == old(summary).entries(),
{
    let before = old(summary).entries();
    if lists(before, outcome.source@) {
        let k = choose|k: int|
            0 <= k < before.len() && (#[trigger] before[k]).source == outcome.source@;
        assert(old(summary).tracks@[k].source@ == outcome.source@);
    }
}

/// A source that could not be inspected leaves a summary without tracks, and all else
/// of it as it was.
pub proof fn law_stopped_run_leaves_no_tracks(
    summary: &mut Summary,
    selected: &Vec<ObservedTrack>,
    profile: RunProfile,
    encoded: &[u8],
    overwrite: bool,
    prune_missing: bool,
    unreadable: UnreadableSource,
)
    requires
        call_ensures(
            Summary::prepare,
            (summary, selected, profile, encoded, overwrite, prune_missing),
            Err(unreadable),
        ),
    ensures
        final(summary).tracks@.len() == 0,
        final(summary).schema == old(summary).schema,
        final(summary).profile == old(summary).profile,
{
    assert(final(summary).entries().len() == final(summary).tracks@.len());
}

/// Recording an outcome keeps the version and the profile of a summary.
pub proof fn law_recording_keeps_the_profile(
    summary: &mut Summary,
    outcome: &RenderOutcome,
    output_bytes: Option<u64>,
    r: Result<(), RecordError>,
)
    requires
        call_ensures(Summary::record, (summary, outcome, output_bytes), r),
    ensures
        final(summary).schema == old(summary).schema,
        final(summary).profile == old(summary).profile,
{
}

} // verus!
