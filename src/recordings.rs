//! The recordings on disk as the clients see them: the state derived from which files of a
//! recording exist, and the conversion queue.
use vstd::prelude::*;

verus! {

pub open spec fn ends_with(s: Seq<u8>, suffix: Seq<u8>) -> bool {
    s.len() >= suffix.len() && s.subrange(s.len() - suffix.len(), s.len() as int) == suffix
}

fn slice_ends_with(s: &[u8], end: usize, suffix: &[u8]) -> (r: bool)
    requires
        end <= s@.len(),
    ensures
        r == ends_with(s@.subrange(0, end as int), suffix@),
{
    if end < suffix.len() {
        return false;
    }
    let start = end - suffix.len();
    let mut k: usize = 0;
    while k < suffix.len()
        invariant
            k <= suffix@.len(),
            start + suffix@.len() == end,
            end <= s@.len(),
            forall|i: int| 0 <= i < k ==> s@[start + i] == suffix@[i],
        decreases suffix@.len() - k,
    {
        if s[start + k] != suffix[k] {
            assert(s@.subrange(0, end as int).subrange(start as int, end as int)[k as int]
                != suffix@[k as int]);
            return false;
        }
        k = k + 1;
    }
    assert(s@.subrange(0, end as int).subrange(start as int, end as int) =~= suffix@);
    true
}

/// A file of a recordings directory, recognised by its name.
#[derive(Debug, Clone, Copy, PartialEq, Eq, Structural)]
pub struct FileEntry {
    /// The length of the recording's stem, at the start of the name.
    pub stem_length: usize,
    /// Which of the expected extensions the name carries.
    pub extension_index: usize,
    /// Whether the file is still under construction.
    pub write: bool,
}

/// The first of `extensions`, from `k` on, that ends `base`.
pub open spec fn first_extension(base: Seq<u8>, extensions: Seq<Seq<u8>>, k: int) -> int
    decreases extensions.len() - k,
{
    if k >= extensions.len() || k < 0 {
        -1
    } else if ends_with(base, extensions[k]) {
        k
    } else {
        first_extension(base, extensions, k + 1)
    }
}

/// What a directory entry's name says: hidden names are skipped; the staging suffix is
/// taken off; the first expected extension that ends what remains gives the stem.
pub open spec fn entry_of(name: Seq<u8>, extensions: Seq<Seq<u8>>, write_suffix: Seq<u8>) -> Option<
    FileEntry,
> {
    if name.len() > 0 && name[0] == 46u8 {
        None
    } else {
        let write = ends_with(name, write_suffix);
        let base = if write {
            name.subrange(0, name.len() - write_suffix.len())
        } else {
            name
        };
        let k = first_extension(base, extensions, 0);
        if k < 0 {
            None
        } else {
            Some(
                FileEntry {
                    stem_length: (base.len() - extensions[k].len()) as usize,
                    extension_index: k as usize,
                    write,
                },
            )
        }
    }
}

/// Recognises a directory entry of a recordings directory.
pub fn classify_file_name(name: &[u8], extensions: &Vec<Vec<u8>>, write_suffix: &[u8]) -> (r:
    Option<FileEntry>)
    ensures
        r == entry_of(name@, extensions@.map_values(|e: Vec<u8>| e@), write_suffix@),
{
    let ghost exts = extensions@.map_values(|e: Vec<u8>| e@);
    if name.len() > 0 && name[0] == 46u8 {
        return None;
    }
    let write = slice_ends_with(name, name.len(), write_suffix);
    assert(name@.subrange(0, name@.len() as int) =~= name@);
    let base_length = if write {
        name.len() - write_suffix.len()
    } else {
        name.len()
    };
    let ghost base = name@.subrange(0, base_length as int);
    assert(base == if write {
        name@.subrange(0, name@.len() - write_suffix@.len())
    } else {
        name@
    });
    let mut k: usize = 0;
    while k < extensions.len()
        invariant
            k <= extensions@.len(),
            base_length <= name@.len(),
            base == name@.subrange(0, base_length as int),
            exts == extensions@.map_values(|e: Vec<u8>| e@),
            first_extension(base, exts, 0) == first_extension(base, exts, k as int),
            !(name@.len() > 0 && name@[0] == 46u8),
            write == ends_with(name@, write_suffix@),
            base == if write {
                name@.subrange(0, name@.len() - write_suffix@.len())
            } else {
                name@
            },
        decreases extensions@.len() - k,
    {
        assert(exts[k as int] == extensions@[k as int]@);
        let found = slice_ends_with(name, base_length, extensions[k].as_slice());
        assert(found == ends_with(base, exts[k as int]));
        if found {
            assert(first_extension(base, exts, k as int) == k);
            let entry = FileEntry {
                stem_length: base_length - extensions[k].len(),
                extension_index: k,
                write,
            };
            return Some(
                FileEntry {
                    stem_length: base_length - extensions[k].len(),
                    extension_index: k,
                    write,
                },
            );
        }
        k = k + 1;
    }
    None
}

/// What the start-up scan does with files left under construction.
#[derive(Debug, Clone, Copy, PartialEq, Eq, Structural)]
pub enum Action {
    /// Give them their final name (recordings: the data is kept).
    Rename,
    /// Delete them (conversions start again from scratch).
    Delete,
}

/// One expected file of a recording, as found in its directory.
#[derive(Debug, Clone, Copy, PartialEq, Eq, Structural)]
pub enum FileStatus {
    NotFound,
    /// Still carries the staging suffix.
    Write,
    /// Complete, with its size.
    Complete(u64),
}

#[derive(Debug, Clone, Copy, PartialEq, Eq, Structural)]
pub enum RecordingState {
    Ongoing,
    Incomplete { size_bytes: u64 },
    Complete { size_bytes: u64, zip: bool },
    Queued { size_bytes: u64, zip: bool },
    Converting { size_bytes: u64, zip: bool },
}

#[derive(Debug, Clone, PartialEq, Eq)]
pub struct Recording {
    pub name: String,
    pub state: RecordingState,
}

pub open spec fn saturating_add(a: u64, b: u64) -> u64 {
    if a + b > u64::MAX {
        u64::MAX
    } else {
        (a + b) as u64
    }
}

/// The total size of the complete files among `statuses`, added in order (saturating).
pub open spec fn complete_size(statuses: Seq<FileStatus>) -> u64
    decreases statuses.len(),
{
    if statuses.len() == 0 {
        0
    } else {
        match statuses.last() {
            FileStatus::Complete(s) => saturating_add(complete_size(statuses.drop_last()), s),
            _ => complete_size(statuses.drop_last()),
        }
    }
}

/// Whether one of the files is missing.
pub open spec fn any_missing(statuses: Seq<FileStatus>) -> bool {
    exists|i: int| 0 <= i < statuses.len() && statuses[i] == FileStatus::NotFound
}

/// Whether one of the files is still under construction.
pub open spec fn any_staged(statuses: Seq<FileStatus>) -> bool {
    exists|i: int| 0 <= i < statuses.len() && statuses[i] == FileStatus::Write
}

/// The state of a recording from its files: a missing file makes it incomplete (with the
/// size of its complete files); otherwise a file under construction makes it ongoing;
/// otherwise it is complete, and it has an archive where `converted` is complete.
pub open spec fn recording_state_of(statuses: Seq<FileStatus>, converted: Option<FileStatus>) -> RecordingState {
    if any_missing(statuses) {
        RecordingState::Incomplete { size_bytes: complete_size(statuses) }
    } else if any_staged(statuses) {
        RecordingState::Ongoing
    } else {
        RecordingState::Complete {
            size_bytes: complete_size(statuses),
            zip: match converted {
                Some(FileStatus::Complete(_)) => true,
                _ => false,
            },
        }
    }
}

proof fn lemma_prefix_flags(statuses: Seq<FileStatus>, k: int)
    requires
        0 <= k < statuses.len(),
    ensures
        any_missing(statuses.subrange(0, k + 1)) == (any_missing(statuses.subrange(0, k))
            || statuses[k] == FileStatus::NotFound),
        any_staged(statuses.subrange(0, k + 1)) == (any_staged(statuses.subrange(0, k))
            || statuses[k] == FileStatus::Write),
        statuses.subrange(0, k + 1).drop_last() == statuses.subrange(0, k),
{
    let p = statuses.subrange(0, k);
    let q = statuses.subrange(0, k + 1);
    assert(q.drop_last() =~= p);
    if any_missing(q) {
        let i = choose|i: int| 0 <= i < q.len() && q[i] == FileStatus::NotFound;
        if i < k {
            assert(p[i] == q[i]);
        }
    }
    if any_missing(p) {
        let i = choose|i: int| 0 <= i < p.len() && p[i] == FileStatus::NotFound;
        assert(q[i] == p[i]);
    }
    if statuses[k] == FileStatus::NotFound {
        assert(q[k] == statuses[k]);
    }
    if any_staged(q) {
        let i = choose|i: int| 0 <= i < q.len() && q[i] == FileStatus::Write;
        if i < k {
            assert(p[i] == q[i]);
        }
    }
    if any_staged(p) {
        let i = choose|i: int| 0 <= i < p.len() && p[i] == FileStatus::Write;
        assert(q[i] == p[i]);
    }
    if statuses[k] == FileStatus::Write {
        assert(q[k] == statuses[k]);
    }
}

pub fn recording_state(statuses: &[FileStatus], converted: Option<FileStatus>) -> (r:
    RecordingState)
    ensures
        r == recording_state_of(statuses@, converted),
{
    let mut missing = false;
    let mut staged = false;
    let mut size: u64 = 0;
    let mut k: usize = 0;
    while k < statuses.len()
        invariant
            k <= statuses@.len(),
            missing == any_missing(statuses@.subrange(0, k as int)),
            staged == any_staged(statuses@.subrange(0, k as int)),
            size == complete_size(statuses@.subrange(0, k as int)),
        decreases statuses@.len() - k,
    {
        proof {
            lemma_prefix_flags(statuses@, k as int);
        }
        match statuses[k] {
            FileStatus::NotFound => missing = true,
            FileStatus::Write => staged = true,
            FileStatus::Complete(s) => {
                size = if size > u64::MAX - s {
                    u64::MAX
                } else {
                    size + s
                };
            },
        }
        k = k + 1;
    }
    assert(statuses@.subrange(0, statuses@.len() as int) =~= statuses@);
    if missing {
        RecordingState::Incomplete { size_bytes: size }
    } else if staged {
        RecordingState::Ongoing
    } else {
        RecordingState::Complete {
            size_bytes: size,
            zip: match converted {
                Some(FileStatus::Complete(_)) => true,
                _ => false,
            },
        }
    }
}

/// Whether `names` holds `name`.
pub open spec fn named(names: Seq<String>, name: String) -> bool {
    exists|i: int| 0 <= i < names.len() && (#[trigger] names[i])@ == name@
}

/// The state after a conversion request naming the recording: a complete recording with
/// no archive yet is queued; any other is left as it is.
pub open spec fn queued_state(state: RecordingState, requested: bool) -> RecordingState {
    match state {
        RecordingState::Complete { size_bytes, zip } => if requested && !zip {
            RecordingState::Queued { size_bytes, zip }
        } else {
            state
        },
        _ => state,
    }
}

fn contains_name(names: &Vec<String>, name: &String) -> (r: bool)
    ensures
        r == named(names@, *name),
{
    let mut k: usize = 0;
    while k < names.len()
        invariant
            k <= names@.len(),
            forall|i: int| 0 <= i < k ==> (#[trigger] names@[i])@ != name@,
        decreases names@.len() - k,
    {
        if names[k] == *name {
            return true;
        }
        k = k + 1;
    }
    false
}

/// Queues for conversion the complete recordings without an archive that `names` lists.
pub fn queue_for_conversion(recordings: &mut Vec<Recording>, names: &Vec<String>)
    ensures
        final(recordings)@.len() == old(recordings)@.len(),
        forall|i: int|
            0 <= i < old(recordings)@.len() ==> (#[trigger] final(recordings)@[i]).name == old(
                recordings,
            )@[i].name && final(recordings)@[i].state == queued_state(
                old(recordings)@[i].state,
                named(names@, old(recordings)@[i].name),
            ),
{
    let mut k: usize = 0;
    while k < recordings.len()
        invariant
            k <= recordings@.len(),
            recordings@.len() == old(recordings)@.len(),
            forall|i: int|
                0 <= i < recordings@.len() ==> (#[trigger] recordings@[i]).name == old(
                    recordings,
                )@[i].name && recordings@[i].state == if i < k {
                    queued_state(old(recordings)@[i].state, named(names@, old(recordings)@[i].name))
                } else {
                    old(recordings)@[i].state
                },
        decreases recordings@.len() - k,
    {
        let requested = contains_name(names, &recordings[k].name);
        let state = recordings[k].state;
        let next = match state {
            RecordingState::Complete { size_bytes, zip } => if requested && !zip {
                RecordingState::Queued { size_bytes, zip }
            } else {
                state
            },
            _ => state,
        };
        recordings[k].state = next;
        k = k + 1;
    }
}

/// The state after a cancellation: queued recordings are complete again.
pub open spec fn cancelled_state(state: RecordingState) -> RecordingState {
    match state {
        RecordingState::Queued { size_bytes, zip } => RecordingState::Complete { size_bytes, zip },
        _ => state,
    }
}

/// Takes every queued recording off the queue; returns whether any was queued.
pub fn cancel_conversion(recordings: &mut Vec<Recording>) -> (changed: bool)
    ensures
        final(recordings)@.len() == old(recordings)@.len(),
        forall|i: int|
            0 <= i < old(recordings)@.len() ==> (#[trigger] final(recordings)@[i]).name == old(
                recordings,
            )@[i].name && final(recordings)@[i].state == cancelled_state(old(recordings)@[i].state),
        changed == exists|i: int|
            0 <= i < old(recordings)@.len() && (#[trigger] old(recordings)@[i]).state is Queued,
{
    let mut changed = false;
    let mut k: usize = 0;
    while k < recordings.len()
        invariant
            k <= recordings@.len(),
            recordings@.len() == old(recordings)@.len(),
            forall|i: int|
                0 <= i < recordings@.len() ==> (#[trigger] recordings@[i]).name == old(
                    recordings,
                )@[i].name && recordings@[i].state == if i < k {
                    cancelled_state(old(recordings)@[i].state)
                } else {
                    old(recordings)@[i].state
                },
            changed == exists|i: int| 0 <= i < k && (#[trigger] old(recordings)@[i]).state is Queued,
        decreases recordings@.len() - k,
    {
        let state = recordings[k].state;
        if let RecordingState::Queued { size_bytes, zip } = state {
            recordings[k].state = RecordingState::Complete { size_bytes, zip };
            changed = true;
        }
        k = k + 1;
    }
    changed
}

/// A queued recording that needs an archive.
pub open spec fn awaits_conversion(state: RecordingState) -> bool {
    match state {
        RecordingState::Queued { zip, .. } => !zip,
        _ => false,
    }
}

/// Picks the first queued recording that needs an archive and marks it converting; the
/// queued recordings before it, whose archive exists, are complete again. Returns its
/// position, or nothing when no recording awaits conversion (then every queued recording
/// is complete again).
pub fn start_next_conversion(recordings: &mut Vec<Recording>) -> (r: Option<usize>)
    ensures
        final(recordings)@.len() == old(recordings)@.len(),
        forall|i: int|
            0 <= i < old(recordings)@.len() ==> (#[trigger] final(recordings)@[i]).name == old(
                recordings,
            )@[i].name,
        r is None ==> forall|i: int|
            0 <= i < old(recordings)@.len() ==> !awaits_conversion(
                #[trigger] old(recordings)@[i].state,
            ) && final(recordings)@[i].state == cancelled_state(old(recordings)@[i].state),
        r matches Some(k) ==> k < old(recordings)@.len() && awaits_conversion(
            old(recordings)@[k as int].state,
        ) && final(recordings)@[k as int].state == (match old(recordings)@[k as int].state {
            RecordingState::Queued { size_bytes, zip } => RecordingState::Converting {
                size_bytes,
                zip,
            },
            other => other,
        }) && forall|i: int|
            0 <= i < old(recordings)@.len() && i != k ==> (i < k ==> !awaits_conversion(
                #[trigger] old(recordings)@[i].state,
            ) && final(recordings)@[i].state == cancelled_state(old(recordings)@[i].state)) && (i
                > k ==> final(recordings)@[i].state == old(recordings)@[i].state),
{
    let mut k: usize = 0;
    while k < recordings.len()
        invariant
            k <= recordings@.len(),
            recordings@.len() == old(recordings)@.len(),
            forall|i: int|
                0 <= i < recordings@.len() ==> (#[trigger] recordings@[i]).name == old(
                    recordings,
                )@[i].name,
            forall|i: int|
                0 <= i < k ==> !awaits_conversion(#[trigger] old(recordings)@[i].state)
                    && recordings@[i].state == cancelled_state(old(recordings)@[i].state),
            forall|i: int|
                k <= i < recordings@.len() ==> (#[trigger] recordings@[i]).state == old(
                    recordings,
                )@[i].state,
        decreases recordings@.len() - k,
    {
        let state = recordings[k].state;
        if let RecordingState::Queued { size_bytes, zip } = state {
            if zip {
                recordings[k].state = RecordingState::Complete { size_bytes, zip };
            } else {
                recordings[k].state = RecordingState::Converting { size_bytes, zip };
                return Some(k);
            }
        }
        k = k + 1;
    }
    None
}

/// The state after the conversion job returned: converting recordings are complete.
pub open spec fn finished_state(state: RecordingState) -> RecordingState {
    match state {
        RecordingState::Converting { size_bytes, zip } => RecordingState::Complete {
            size_bytes,
            zip,
        },
        _ => state,
    }
}

/// Marks the converting recordings complete once the conversion job has returned.
pub fn finish_conversion(recordings: &mut Vec<Recording>)
    ensures
        final(recordings)@.len() == old(recordings)@.len(),
        forall|i: int|
            0 <= i < old(recordings)@.len() ==> (#[trigger] final(recordings)@[i]).name == old(
                recordings,
            )@[i].name && final(recordings)@[i].state == finished_state(old(recordings)@[i].state),
{
    let mut k: usize = 0;
    while k < recordings.len()
        invariant
            k <= recordings@.len(),
            recordings@.len() == old(recordings)@.len(),
            forall|i: int|
                0 <= i < recordings@.len() ==> (#[trigger] recordings@[i]).name == old(
                    recordings,
                )@[i].name && recordings@[i].state == if i < k {
                    finished_state(old(recordings)@[i].state)
                } else {
                    old(recordings)@[i].state
                },
        decreases recordings@.len() - k,
    {
        let state = recordings[k].state;
        if let RecordingState::Converting { size_bytes, zip } = state {
            recordings[k].state = RecordingState::Complete { size_bytes, zip };
        }
        k = k + 1;
    }
}

/// The state of the first recording of `recordings`, from `k` on, named `name`.
pub open spec fn state_named(recordings: Seq<Recording>, name: Seq<char>, k: int) -> Option<
    RecordingState,
>
    decreases recordings.len() - k,
{
    if k < 0 || k >= recordings.len() {
        None
    } else if recordings[k].name@ == name {
        Some(recordings[k].state)
    } else {
        state_named(recordings, name, k + 1)
    }
}

/// The state of a recording found by a new scan, given its state before the scan: a scan
/// sees a queued or converting recording as complete, so those states carry over.
pub open spec fn rescanned_state(scanned: RecordingState, previous: Option<RecordingState>) -> RecordingState {
    match scanned {
        RecordingState::Complete { size_bytes, zip } => match previous {
            Some(RecordingState::Queued { .. }) => RecordingState::Queued { size_bytes, zip },
            Some(RecordingState::Converting { .. }) => RecordingState::Converting {
                size_bytes,
                zip,
            },
            _ => scanned,
        },
        _ => scanned,
    }
}

fn find_state(recordings: &Vec<Recording>, name: &String) -> (r: Option<RecordingState>)
    ensures
        r == state_named(recordings@, name@, 0),
{
    let mut k: usize = 0;
    while k < recordings.len()
        invariant
            k <= recordings@.len(),
            state_named(recordings@, name@, 0) == state_named(recordings@, name@, k as int),
        decreases recordings@.len() - k,
    {
        if recordings[k].name == *name {
            return Some(recordings[k].state);
        }
        k = k + 1;
    }
    None
}

/// Carries the conversion states of the recordings known before a scan over to the
/// recordings that the scan found.
pub fn keep_conversion_states(scanned: &mut Vec<Recording>, previous: &Vec<Recording>)
    ensures
        final(scanned)@.len() == old(scanned)@.len(),
        forall|i: int|
            0 <= i < old(scanned)@.len() ==> (#[trigger] final(scanned)@[i]).name == old(
                scanned,
            )@[i].name && final(scanned)@[i].state == rescanned_state(
                old(scanned)@[i].state,
                state_named(previous@, old(scanned)@[i].name@, 0),
            ),
{
    let mut k: usize = 0;
    while k < scanned.len()
        invariant
            k <= scanned@.len(),
            scanned@.len() == old(scanned)@.len(),
            forall|i: int|
                0 <= i < scanned@.len() ==> (#[trigger] scanned@[i]).name == old(scanned)@[i].name
                    && scanned@[i].state == if i < k {
                    rescanned_state(
                        old(scanned)@[i].state,
                        state_named(previous@, old(scanned)@[i].name@, 0),
                    )
                } else {
                    old(scanned)@[i].state
                },
        decreases scanned@.len() - k,
    {
        let before = find_state(previous, &scanned[k].name);
        let state = scanned[k].state;
        let next = match state {
            RecordingState::Complete { size_bytes, zip } => match before {
                Some(RecordingState::Queued { .. }) => RecordingState::Queued { size_bytes, zip },
                Some(RecordingState::Converting { .. }) => RecordingState::Converting {
                    size_bytes,
                    zip,
                },
                _ => state,
            },
            _ => state,
        };
        scanned[k].state = next;
        k = k + 1;
    }
}

} // verus!
