//! The bookkeeping of an open recording: offsets, sizes and the sticky per-file error
//! flags, and what the sampler derives from it.
use vstd::prelude::*;

verus! {

/// The three files of a recording.
#[derive(Debug, Clone, Copy, PartialEq, Eq, Structural)]
pub enum RecordingFile {
    Raw,
    Index,
    Metadata,
}

/// The state of an open recording's writers. Every write to one of its files goes through
/// it, with the number of bytes that reached the file.
pub struct RecordingLedger {
    raw_file_offset: u64,
    size_bytes: u64,
    raw_file_error: bool,
    index_file_error: bool,
    metadata_file_error: bool,
    start_t: u64,
    raw_bytes: Ghost<nat>,
    index_bytes: Ghost<nat>,
    metadata_bytes: Ghost<nat>,
}

/// The length of a recording at device time `current_t`: nothing before its start.
pub open spec fn recording_duration(start_t: u64, current_t: u64) -> u64 {
    if current_t > start_t {
        (current_t - start_t) as u64
    } else {
        0
    }
}

impl RecordingLedger {
    pub closed spec fn spec_raw_file_offset(self) -> u64 {
        self.raw_file_offset
    }

    pub closed spec fn spec_size_bytes(self) -> u64 {
        self.size_bytes
    }

    pub closed spec fn spec_start_t(self) -> u64 {
        self.start_t
    }

    /// Whether a write to `file` has failed: no more writes go to it.
    pub closed spec fn failed(self, file: RecordingFile) -> bool {
        match file {
            RecordingFile::Raw => self.raw_file_error,
            RecordingFile::Index => self.index_file_error,
            RecordingFile::Metadata => self.metadata_file_error,
        }
    }

    /// The bytes that reached `file`.
    pub closed spec fn written(self, file: RecordingFile) -> nat {
        match file {
            RecordingFile::Raw => self.raw_bytes@,
            RecordingFile::Index => self.index_bytes@,
            RecordingFile::Metadata => self.metadata_bytes@,
        }
    }

    pub closed spec fn wf(self) -> bool {
        &&& self.raw_file_offset == self.raw_bytes@
        &&& self.size_bytes == self.raw_bytes@ + self.index_bytes@ + self.metadata_bytes@
    }

    /// A recording whose files hold their headers: `raw_header` bytes in the raw file,
    /// `index_header` in the index, `metadata_header` in the metadata file. It starts at
    /// device time `start_t`.
    pub fn new(raw_header: u64, index_header: u64, metadata_header: u64, start_t: u64) -> (r:
        RecordingLedger)
        requires
            raw_header + index_header + metadata_header <= u64::MAX,
        ensures
            r.wf(),
            r.written(RecordingFile::Raw) == raw_header,
            r.written(RecordingFile::Index) == index_header,
            r.written(RecordingFile::Metadata) == metadata_header,
            r.spec_raw_file_offset() == raw_header,
            r.spec_size_bytes() == raw_header + index_header + metadata_header,
            r.spec_start_t() == start_t,
            !r.failed(RecordingFile::Raw),
            !r.failed(RecordingFile::Index),
            !r.failed(RecordingFile::Metadata),
    {
        RecordingLedger {
            raw_file_offset: raw_header,
            size_bytes: raw_header + index_header + metadata_header,
            raw_file_error: false,
            index_file_error: false,
            metadata_file_error: false,
            start_t,
            raw_bytes: Ghost(raw_header as nat),
            index_bytes: Ghost(index_header as nat),
            metadata_bytes: Ghost(metadata_header as nat),
        }
    }

    pub fn raw_file_offset(&self) -> (r: u64)
        ensures
            r == self.spec_raw_file_offset(),
    {
        self.raw_file_offset
    }

    pub fn size_bytes(&self) -> (r: u64)
        ensures
            r == self.spec_size_bytes(),
    {
        self.size_bytes
    }

    pub fn start_t(&self) -> (r: u64)
        ensures
            r == self.spec_start_t(),
    {
        self.start_t
    }

    /// Whether writes to `file` are still attempted.
    pub fn writable(&self, file: RecordingFile) -> (r: bool)
        ensures
            r == !self.failed(file),
    {
        match file {
            RecordingFile::Raw => !self.raw_file_error,
            RecordingFile::Index => !self.index_file_error,
            RecordingFile::Metadata => !self.metadata_file_error,
        }
    }

    /// Records a write of which `count` bytes reached `file`, and whether it failed.
    /// Returns whether this is the file's first failure, the one to report to users.
    pub fn record_write(&mut self, file: RecordingFile, count: u64, error: bool) -> (first_error:
        bool)
        requires
            old(self).wf(),
            old(self).spec_size_bytes() + count <= u64::MAX,
        ensures
            final(self).wf(),
            first_error == (error && !old(self).failed(file)),
            final(self).failed(file) == (old(self).failed(file) || error),
            final(self).written(file) == old(self).written(file) + count,
            final(self).spec_size_bytes() == old(self).spec_size_bytes() + count,
            forall|other: RecordingFile|
                other != file ==> final(self).failed(other) == old(self).failed(other)
                    && final(self).written(other) == old(self).written(other),
            final(self).spec_start_t() == old(self).spec_start_t(),
            file == RecordingFile::Raw ==> final(self).spec_raw_file_offset() == old(
                self,
            ).spec_raw_file_offset() + count,
            file != RecordingFile::Raw ==> final(self).spec_raw_file_offset() == old(
                self,
            ).spec_raw_file_offset(),
    {
        self.size_bytes = self.size_bytes + count;
        let first_error = match file {
            RecordingFile::Raw => {
                self.raw_file_offset = self.raw_file_offset + count;
                self.raw_bytes = Ghost(self.raw_bytes@ + count as nat);
                let first = error && !self.raw_file_error;
                self.raw_file_error = self.raw_file_error || error;
                first
            },
            RecordingFile::Index => {
                self.index_bytes = Ghost(self.index_bytes@ + count as nat);
                let first = error && !self.index_file_error;
                self.index_file_error = self.index_file_error || error;
                first
            },
            RecordingFile::Metadata => {
                self.metadata_bytes = Ghost(self.metadata_bytes@ + count as nat);
                let first = error && !self.metadata_file_error;
                self.metadata_file_error = self.metadata_file_error || error;
                first
            },
        };
        first_error
    }

    /// The recording's length at device time `current_t`.
    pub fn duration_us(&self, current_t: u64) -> (r: u64)
        ensures
            r == recording_duration(self.spec_start_t(), current_t),
    {
        if current_t > self.start_t {
            current_t - self.start_t
        } else {
            0
        }
    }

    /// The size reported for a recording is the number of bytes that reached its three
    /// files together.
    pub proof fn lemma_size_is_files_total(self)
        requires
            self.wf(),
        ensures
            self.spec_size_bytes() == self.written(RecordingFile::Raw) + self.written(
                RecordingFile::Index,
            ) + self.written(RecordingFile::Metadata),
            self.spec_raw_file_offset() == self.written(RecordingFile::Raw),
    {
    }
}

/// What identifies a camera: shown to the clients and written to the metadata of its
/// recordings.
#[derive(Debug, Clone, PartialEq, Eq)]
pub struct Properties {
    pub name: String,
    pub serial: String,
    pub speed: String,
    pub bus_number: u8,
    pub address: u8,
}

/// What the event producer publishes of its open recording.
#[derive(Debug, Clone, PartialEq, Eq)]
pub struct FileState {
    pub directory: String,
    pub name: String,
    pub duration_us: u64,
    pub size_bytes: u64,
}

/// Updates the published state from the open recording at device time `current_t`.
pub fn update_file_state(
    ledger: &RecordingLedger,
    directory: &String,
    name: &String,
    current_t: u64,
    file_state: &mut Option<FileState>,
)
    ensures
        *final(file_state) == Some(
            FileState {
                directory: *directory,
                name: *name,
                duration_us: recording_duration(ledger.spec_start_t(), current_t),
                size_bytes: ledger.spec_size_bytes(),
            },
        ),
{
    let duration_us = ledger.duration_us(current_t);
    let size_bytes = ledger.size_bytes();
    *file_state = Some(
        FileState { directory: directory.clone(), name: name.clone(), duration_us, size_bytes },
    );
}

/// What the sampler does with its samples file after reading the producer's state.
#[derive(Debug, Clone, PartialEq, Eq)]
pub enum SamplerRecordingAction {
    Continue { duration_us: u64, size_bytes: u64 },
    Start { directory: String, name: String, duration_us: u64, size_bytes: u64 },
    Stop,
}

/// Mirrors the producer's recording: none open means stop; one other than the sampler's
/// own (`current`, as directory and name) means start a samples file for it; the same one
/// means go on.
pub fn sampler_recording_action(
    file_state: &Option<FileState>,
    current: &Option<(String, String)>,
) -> (r: SamplerRecordingAction)
    ensures
        r == match *file_state {
            None => SamplerRecordingAction::Stop,
            Some(f) => match *current {
                Some((directory, name)) => if directory@ == f.directory@ && name@ == f.name@ {
                    SamplerRecordingAction::Continue {
                        duration_us: f.duration_us,
                        size_bytes: f.size_bytes,
                    }
                } else {
                    SamplerRecordingAction::Start {
                        directory: f.directory,
                        name: f.name,
                        duration_us: f.duration_us,
                        size_bytes: f.size_bytes,
                    }
                },
                None => SamplerRecordingAction::Start {
                    directory: f.directory,
                    name: f.name,
                    duration_us: f.duration_us,
                    size_bytes: f.size_bytes,
                },
            },
        },
{
    match file_state {
        None => SamplerRecordingAction::Stop,
        Some(f) => {
            let same = match current {
                Some(current) => current.0 == f.directory && current.1 == f.name,
                None => false,
            };
            if same {
                SamplerRecordingAction::Continue { duration_us: f.duration_us, size_bytes: f.size_bytes }
            } else {
                SamplerRecordingAction::Start {
                    directory: f.directory.clone(),
                    name: f.name.clone(),
                    duration_us: f.duration_us,
                    size_bytes: f.size_bytes,
                }
            }
        },
    }
}

} // verus!
