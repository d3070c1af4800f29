//! The session log: what it is called, and what is written to it.

use crate::lines::{law_line_ends_cut_output, lines_of, lines_step, no_line, LineSplitter};
use crate::paths::{
    directory_of, is_written_out, join, law_files_have_their_name_and_directory, parent, path_join,
};
use crate::render::records_of;
use crate::text::{decimal, decimal_text, lemma_decimal_injective};
use vstd::prelude::*;
use vstd::utf8::encode_utf8;

verus! {

/// A record of the log: the label of a line, the line, and a newline.
pub open spec fn log_record(label: Seq<char>, line: Seq<u8>) -> Seq<u8> {
    encode_utf8("["@ + label + "] "@) + line + seq![0x0au8]
}

/// A record of the log.
pub fn labeled_record(source_label: &str, bytes: &[u8]) -> (record: Vec<u8>)
    ensures
        record@ == log_record(source_label@, bytes@),
{
    let prefix = "[".to_owned().concat(source_label).concat("] ");
    let head = prefix.as_str().as_bytes();
    let mut record: Vec<u8> = Vec::new();
    let mut i: usize = 0;
    while i < head.len()
        invariant
            i <= head@.len(),
            record@ == head@.take(i as int),
        decreases head@.len() - i,
    {
        record.push(head[i]);
        assert(head@.take(i + 1) =~= head@.take(i as int).push(head@[i as int]));
        i = i + 1;
    }
    assert(head@.take(i as int) =~= head@);
    let mut j: usize = 0;
    assert(head@ + bytes@.take(0) =~= head@);
    while j < bytes.len()
        invariant
            j <= bytes@.len(),
            record@ == head@ + bytes@.take(j as int),
        decreases bytes@.len() - j,
    {
        record.push(bytes[j]);
        assert(head@ + bytes@.take(j + 1) =~= (head@ + bytes@.take(j as int)).push(bytes@[j as int]));
        j = j + 1;
    }
    assert(bytes@.take(j as int) =~= bytes@);
    record.push(0x0a);
    assert(record@ =~= log_record(source_label@, bytes@));
    record
}

/// The records of lines.
pub open spec fn log_records(label: Seq<char>, lines: Seq<Seq<u8>>) -> Seq<Seq<u8>> {
    Seq::new(lines.len(), |i: int| log_record(label, lines[i]))
}

/// The records of output that is complete: one for each of its lines.
pub fn labeled_records(source_label: &str, bytes: &[u8]) -> (records: Vec<Vec<u8>>)
    ensures
        records_of(records@) == log_records(source_label@, lines_of(bytes@)),
{
    let mut splitter = LineSplitter::new();
    let mut records: Vec<Vec<u8>> = Vec::new();
    let mut i: usize = 0;
    assert(records_of(records@) =~= log_records(source_label@, Seq::empty()));
    while i < bytes.len()
        invariant
            i <= bytes@.len(),
            splitter@ == lines_step(no_line(), bytes@.take(i as int)).0,
            records_of(records@) == log_records(
                source_label@,
                lines_step(no_line(), bytes@.take(i as int)).1,
            ),
        decreases bytes@.len() - i,
    {
        proof {
            let part = bytes@.take(i + 1);
            assert(part.drop_last() =~= bytes@.take(i as int));
            assert(part.last() == bytes@[i as int]);
        }
        let ghost lines = lines_step(no_line(), bytes@.take(i as int)).1;
        let ghost before = records_of(records@);
        match splitter.push(bytes[i]) {
            Some(line) => {
                let record = labeled_record(source_label, line.as_slice());
                records.push(record);
                assert(records_of(records@) =~= before.push(record@));
                assert(log_records(source_label@, lines.push(line@)) =~= before.push(record@));
            },
            None => {},
        }
        i = i + 1;
    }
    assert(bytes@.take(i as int) =~= bytes@);
    let ghost lines = lines_step(no_line(), bytes@).1;
    let ghost before = records_of(records@);
    match splitter.finish() {
        Some(line) => {
            let record = labeled_record(source_label, line.as_slice());
            records.push(record);
            assert(records_of(records@) =~= before.push(record@));
            assert(log_records(source_label@, lines.push(line@)) =~= before.push(record@));
        },
        None => {},
    }
    records
}

/// How many names are tried for a log.
pub const MAX_LOG_NAMES: u64 = 32;

/// The name of a log file.
pub open spec fn log_name(now_ms: u64, process_id: u64, sequence: u64) -> Seq<char> {
    "session-"@ + decimal(now_ms as nat) + "-"@ + decimal(process_id as nat) + "-"@ + decimal(
        sequence as nat,
    ) + ".log"@
}

/// The directory of the logs of a state file.
pub open spec fn logs_directory(state_file: Seq<char>) -> Option<Seq<char>> {
    match directory_of(state_file) {
        Some(directory) => Some(path_join(directory, "logs"@)),
        None => None,
    }
}

/// The directory of the logs: beside the state file.
pub fn logs_directory_of(state_file: &str) -> (directory: Option<String>)
    ensures
        match directory {
            Some(directory) => logs_directory(state_file@) == Some(directory@),
            None => logs_directory(state_file@) is None,
        },
{
    match parent(state_file) {
        Some(directory) => Some(join(directory.as_str(), "logs")),
        None => None,
    }
}

/// What came of creating a file under a name.
#[derive(Debug, Clone, Copy, PartialEq, Eq, Structural)]
pub enum CreateOutcome {
    Created,
    AlreadyExists,
    Failed,
}

/// What to do next for a log.
#[derive(Debug, Clone, PartialEq, Eq)]
pub enum CreateStep {
    /// Create a file at this path.
    Try { path: String },
    /// The log is there.
    Done,
    /// The file could not be created for another reason.
    Fail,
    /// No name was free.
    GiveUp,
}

/// Looks for a name for a log under which there is no file yet.
#[derive(Debug)]
pub struct LogNames {
    directory: String,
    now_ms: u64,
    process_id: u64,
    sequence: u64,
    tried: u64,
}

impl LogNames {
    /// The path of the name for a sequence number.
    pub closed spec fn candidate(&self, sequence: u64) -> Seq<char> {
        path_join(self.directory@, log_name(self.now_ms, self.process_id, sequence))
    }

    /// The sequence number of the next name.
    pub closed spec fn next_sequence(&self) -> u64 {
        self.sequence
    }

    /// How many names have been tried.
    pub closed spec fn tries(&self) -> u64 {
        self.tried
    }

    /// Names from the sequence number `sequence` on, none of them tried.
    pub fn new(directory: String, now_ms: u64, process_id: u64, sequence: u64) -> (names: Self)
        ensures
            names.tries() == 0,
            names.next_sequence() == sequence,
            forall|s: u64| #[trigger]
                names.candidate(s) == path_join(directory@, log_name(now_ms, process_id, s)),
    {
        LogNames { directory, now_ms, process_id, sequence, tried: 0 }
    }

    /// What to do after the last name was tried, or first of all.
    pub fn next(&mut self, outcome: Option<CreateOutcome>) -> (step: CreateStep)
        ensures
            forall|s: u64| #[trigger] final(self).candidate(s) == old(self).candidate(s),
            match outcome {
                Some(CreateOutcome::Created) => step == CreateStep::Done,
                Some(CreateOutcome::Failed) => step == CreateStep::Fail,
                _ => if old(self).tries() < MAX_LOG_NAMES {
                    step matches CreateStep::Try { path } && path@ == old(self).candidate(
                        old(self).next_sequence(),
                    )
                } else {
                    step == CreateStep::GiveUp
                },
            },
            step is Try ==> final(self).tries() == old(self).tries() + 1
                && final(self).next_sequence() == old(self).next_sequence().wrapping_add(1),
            !(step is Try) ==> final(self).tries() == old(self).tries()
                && final(self).next_sequence() == old(self).next_sequence(),
    {
        match outcome {
            Some(CreateOutcome::Created) => {
                return CreateStep::Done;
            },
            Some(CreateOutcome::Failed) => {
                return CreateStep::Fail;
            },
            _ => {},
        }
        if self.tried >= MAX_LOG_NAMES {
            return CreateStep::GiveUp;
        }
        let name = "session-".to_owned().concat(decimal_text(self.now_ms).as_str()).concat("-").concat(
            decimal_text(self.process_id).as_str(),
        ).concat("-").concat(decimal_text(self.sequence).as_str()).concat(".log");
        let path = join(self.directory.as_str(), name.as_str());
        self.tried = self.tried + 1;
        self.sequence = self.sequence.wrapping_add(1);
        CreateStep::Try { path }
    }
}

/// What is to be done with what is waiting to be written.
#[derive(Debug, Clone, PartialEq, Eq)]
pub enum FlushStep {
    /// Report that an earlier write failed.
    Report { error: String },
    /// Nothing is waiting.
    Nothing,
    /// Write these bytes.
    Write { bytes: Vec<u8> },
}

/// What is waiting to be written to a log. After a write has failed nothing is written any more.
#[derive(Debug)]
pub struct LogBatch {
    pending: Vec<u8>,
    failed: Option<String>,
}

impl LogBatch {
    /// The bytes that are waiting.
    pub closed spec fn waiting(&self) -> Seq<u8> {
        self.pending@
    }

    /// The error of the write that failed.
    pub closed spec fn error(&self) -> Option<Seq<char>> {
        match self.failed {
            Some(error) => Some(error@),
            None => None,
        }
    }

    /// Nothing is waiting and nothing has failed.
    pub fn new() -> (batch: Self)
        ensures
            batch.waiting() == Seq::<u8>::empty(),
            batch.error() is None,
    {
        LogBatch { pending: Vec::new(), failed: None }
    }

    /// Puts bytes behind what is waiting.
    pub fn queue(&mut self, bytes: Vec<u8>)
        ensures
            final(self).waiting() == old(self).waiting() + bytes@,
            final(self).error() == old(self).error(),
    {
        let mut bytes = bytes;
        self.pending.append(&mut bytes);
    }

    /// Takes what is waiting, and says what to do with it.
    pub fn flush(&mut self) -> (step: FlushStep)
        ensures
            final(self).waiting() == Seq::<u8>::empty(),
            final(self).error() == old(self).error(),
            match old(self).error() {
                Some(error) => step matches FlushStep::Report { error: text } && text@ == error,
                None => if old(self).waiting().len() == 0 {
                    step == FlushStep::Nothing
                } else {
                    step matches FlushStep::Write { bytes } && bytes@ == old(self).waiting()
                },
            },
    {
        let mut bytes: Vec<u8> = Vec::new();
        std::mem::swap(&mut self.pending, &mut bytes);
        assert(self.waiting() =~= Seq::empty());
        match &self.failed {
            Some(error) => FlushStep::Report { error: error.clone() },
            None => if bytes.len() == 0 {
                FlushStep::Nothing
            } else {
                FlushStep::Write { bytes }
            },
        }
    }

    /// Notes that a write has failed.
    pub fn fail(&mut self, error: String)
        ensures
            final(self).waiting() == old(self).waiting(),
            final(self).error() == Some(error@),
    {
        self.failed = Some(error);
    }
}

/// The names that are tried for a log differ: no two sequence numbers give the same name.
pub proof fn law_log_names_differ(now_ms: u64, process_id: u64, first: u64, second: u64)
    requires
        first != second,
    ensures
        log_name(now_ms, process_id, first) != log_name(now_ms, process_id, second),
{
    let head = "session-"@ + decimal(now_ms as nat) + "-"@ + decimal(process_id as nat) + "-"@;
    let a = decimal(first as nat);
    let b = decimal(second as nat);
    lemma_decimal_injective(first as nat, second as nat);
    if head + a + ".log"@ == head + b + ".log"@ {
        assert((head + a + ".log"@).len() == (head + b + ".log"@).len());
        assert(a =~= (head + a + ".log"@).subrange(head.len() as int, (head.len() + a.len()) as int));
        assert(b =~= (head + b + ".log"@).subrange(head.len() as int, (head.len() + b.len()) as int));
    }
}

/// A record is the label between brackets, a space, the line as it came, and a newline.
pub proof fn law_records_hold_label_and_line(label: Seq<char>, line: Seq<u8>)
    ensures
        log_record(label, line) == encode_utf8(seq!['['] + label + seq![']', ' ']) + line + seq![0x0au8],
{
    reveal_strlit("[");
    reveal_strlit("] ");
    assert("["@ =~= seq!['[']);
    assert("] "@ =~= seq![']', ' ']);
}

/// Output that is complete gives one record for each of its lines, in order, each with the label.
pub proof fn law_each_line_has_a_record(label: Seq<char>, plain: Seq<u8>, rest: Seq<u8>)
    requires
        forall|i: int| 0 <= i < plain.len() ==> #[trigger] plain[i] != 0x0d && plain[i] != 0x0a,
    ensures
        log_records(label, lines_of(plain.push(0x0a) + rest)) == seq![log_record(label, plain)]
            + log_records(label, lines_of(rest)),
        log_records(label, Seq::empty()) == Seq::<Seq<u8>>::empty(),
{
    law_line_ends_cut_output(plain, rest);
    assert(log_records(label, lines_of(plain.push(0x0a) + rest)) =~= seq![log_record(label, plain)]
        + log_records(label, lines_of(rest)));
    assert(log_records(label, Seq::empty()) =~= Seq::<Seq<u8>>::empty());
}

/// A log has a name of its own for each process and each number, and stands in a directory `logs`
/// beside the state file.
pub proof fn law_logs_stand_beside_the_state(
    now_ms: u64,
    process_id: u64,
    sequence: u64,
    directory: Seq<char>,
    file: Seq<char>,
)
    requires
        is_written_out(directory),
        file.len() > 0,
        forall|i: int| 0 <= i < file.len() ==> #[trigger] file[i] != '/',
        file != seq!['.'],
        file != seq!['.', '.'],
    ensures
        log_name(now_ms, process_id, sequence) == "session-"@ + decimal(now_ms as nat) + seq!['-'] + decimal(
            process_id as nat,
        ) + seq!['-'] + decimal(sequence as nat) + seq!['.', 'l', 'o', 'g'],
        logs_directory(path_join(directory, file)) matches Some(logs) && logs == path_join(
            directory,
            seq!['l', 'o', 'g', 's'],
        ),
{
    reveal_strlit("-");
    reveal_strlit(".log");
    reveal_strlit("logs");
    assert("-"@ =~= seq!['-']);
    assert(".log"@ =~= seq!['.', 'l', 'o', 'g']);
    assert("logs"@ =~= seq!['l', 'o', 'g', 's']);
    law_files_have_their_name_and_directory(directory, file);
}

} // verus!
