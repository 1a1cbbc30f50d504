//! Spooling of streamed input.
//!
//! Input that arrives chunk by chunk is held in memory while it fits under
//! `MAX_BUF_SIZE`. The chunk that takes it over the limit makes the spooler
//! spill: everything held so far goes to a freshly named temporary file, and
//! every later chunk is appended to that file. The spooler decides; the caller
//! performs the writes that the returned action asks for.

use vstd::prelude::*;

verus! {

/// The most bytes that are held in memory for one input.
pub const MAX_BUF_SIZE: usize = 4194304;

/// What a spooler has taken in: the bytes it holds in memory, and the bytes
/// that belong in the temporary file once it has spilled.
pub ghost struct SpoolModel {
    pub memory: Seq<u8>,
    pub file: Option<Seq<u8>>,
}

impl SpoolModel {
    /// Nothing taken in yet.
    pub open spec fn initial() -> SpoolModel {
        SpoolModel { memory: Seq::empty(), file: None }
    }

    /// The model after one more chunk.
    pub open spec fn step(self, chunk: Seq<u8>) -> SpoolModel {
        match self.file {
            Some(file) => SpoolModel { memory: self.memory, file: Some(file + chunk) },
            None => if self.memory.len() + chunk.len() > MAX_BUF_SIZE {
                SpoolModel { memory: Seq::empty(), file: Some(self.memory + chunk) }
            } else {
                SpoolModel { memory: self.memory + chunk, file: None }
            },
        }
    }

    /// The model after the chunks, taken in from the first to the last.
    pub open spec fn after(chunks: Seq<Seq<u8>>) -> SpoolModel
        decreases chunks.len(),
    {
        if chunks.len() == 0 {
            Self::initial()
        } else {
            Self::after(chunks.drop_last()).step(chunks.last())
        }
    }

    /// The bytes of the byte view that the model gives rise to: the file's
    /// where it has spilled, else the memory's.
    pub open spec fn content(self) -> Seq<u8> {
        match self.file {
            Some(file) => file,
            None => self.memory,
        }
    }
}

/// The chunks one after the other.
pub open spec fn joined(chunks: Seq<Seq<u8>>) -> Seq<u8>
    decreases chunks.len(),
{
    if chunks.len() == 0 {
        Seq::empty()
    } else {
        joined(chunks.drop_last()) + chunks.last()
    }
}

/// A lower-case hexadecimal digit.
pub open spec fn is_lower_hex(c: char) -> bool {
    ('0' <= c && c <= '9') || ('a' <= c && c <= 'f')
}

/// The shape of a hyphenated identifier: 36 characters, hyphens at 8, 13, 18
/// and 23, lower-case hexadecimal digits elsewhere.
pub open spec fn is_hyphenated_identifier(name: Seq<char>) -> bool {
    &&& name.len() == 36
    &&& forall|i: int|
        0 <= i < 36 ==> if i == 8 || i == 13 || i == 18 || i == 23 {
            #[trigger] name[i] == '-'
        } else {
            is_lower_hex(name[i])
        }
}

/// A fresh random identifier in hyphenated form.
///
/// Calls `uuid::Uuid::new_v4` and formats the value through
/// `uuid::Uuid::hyphenated`. Not proved here: that the text has the shape
/// `is_hyphenated_identifier`. Nothing is claimed of which identifier comes
/// back; the generator draws on the operating system's random source and
/// panics where that source fails.
#[verifier::external_body]
fn random_identifier() -> (id: String)
    ensures
        is_hyphenated_identifier(id@),
{
    format!("{}", uuid::Uuid::new_v4().hyphenated())
}

/// What the caller has to do after handing a chunk to the spooler.
#[derive(Debug, PartialEq, Eq)]
pub enum SpoolAction {
    /// Nothing: the chunk is held in memory.
    Hold,
    /// Create the temporary file `name` and write `bytes` to it.
    Spill { name: String, bytes: Vec<u8> },
    /// Append the chunk to the temporary file.
    Append,
}

/// Where the bytes of a finished input are.
#[derive(Debug, PartialEq, Eq)]
pub enum ByteSource {
    /// In memory: the input never went over the limit.
    InMemory(Vec<u8>),
    /// In the temporary file, which is to be mapped, and deleted after use.
    TempFile,
}

impl ByteSource {
    /// Whether a temporary file backs the input and has to be deleted once
    /// the input has been processed.
    pub fn delete_on_exit(&self) -> (owned: bool)
        ensures
            owned == (self is TempFile),
    {
        match self {
            ByteSource::InMemory(_) => false,
            ByteSource::TempFile => true,
        }
    }
}

/// Decides, chunk by chunk, where streamed input goes.
pub struct Spooler {
    buffer: Vec<u8>,
    spilled: bool,
    written: Ghost<Seq<u8>>,
}

impl View for Spooler {
    type V = SpoolModel;

    closed spec fn view(&self) -> SpoolModel {
        SpoolModel {
            memory: self.buffer@,
            file: if self.spilled {
                Some(self.written@)
            } else {
                None
            },
        }
    }
}

impl Spooler {
    /// Memory holds at most `MAX_BUF_SIZE` bytes, and nothing after a spill.
    pub open spec fn wf(&self) -> bool {
        match self@.file {
            Some(file) => self@.memory.len() == 0 && file.len() > MAX_BUF_SIZE,
            None => self@.memory.len() <= MAX_BUF_SIZE,
        }
    }

    /// A spooler that has taken nothing in.
    pub fn new() -> (spooler: Self)
        ensures
            spooler.wf(),
            spooler@ == SpoolModel::initial(),
    {
        Spooler { buffer: Vec::new(), spilled: false, written: Ghost(Seq::empty()) }
    }

    /// Takes one chunk in and says what the caller has to write.
    ///
    /// While the input fits in memory the chunk is held. The chunk that takes
    /// the input over `MAX_BUF_SIZE` makes the spooler hand out everything it
    /// holds, that chunk included, under a fresh name. After that every chunk
    /// is to be appended.
    pub fn push(&mut self, chunk: &[u8]) -> (action: SpoolAction)
        requires
            old(self).wf(),
        ensures
            final(self).wf(),
            final(self)@ == old(self)@.step(chunk@),
            match action {
                SpoolAction::Hold => old(self)@.file is None && old(self)@.memory.len()
                    + chunk@.len() <= MAX_BUF_SIZE,
                SpoolAction::Spill { name, bytes } => old(self)@.file is None && old(
                    self,
                )@.memory.len() + chunk@.len() > MAX_BUF_SIZE && bytes@ == old(self)@.memory
                    + chunk@ && is_hyphenated_identifier(name@),
                SpoolAction::Append => old(self)@.file is Some,
            },
    {
        if self.spilled {
            proof {
                self.written@ = self.written@ + chunk@;
            }
            SpoolAction::Append
        } else if chunk.len() > MAX_BUF_SIZE - self.buffer.len() {
            let mut bytes: Vec<u8> = Vec::new();
            std::mem::swap(&mut self.buffer, &mut bytes);
            bytes.extend_from_slice(chunk);
            assert(bytes@ =~= old(self)@.memory + chunk@);
            self.spilled = true;
            proof {
                self.written@ = bytes@;
            }
            SpoolAction::Spill { name: random_identifier(), bytes }
        } else {
            self.buffer.extend_from_slice(chunk);
            assert(self.buffer@ =~= old(self)@.memory + chunk@);
            SpoolAction::Hold
        }
    }

    /// Ends the input: the bytes themselves where everything fitted in
    /// memory, else the notice that they are in the temporary file.
    pub fn finish(self) -> (source: ByteSource)
        requires
            self.wf(),
        ensures
            match source {
                ByteSource::InMemory(bytes) => self@.file is None && bytes@ == self@.memory,
                ByteSource::TempFile => self@.file is Some,
            },
    {
        if self.spilled {
            ByteSource::TempFile
        } else {
            ByteSource::InMemory(self.buffer)
        }
    }
}

/// Threshold: the input spills exactly when it is longer than `MAX_BUF_SIZE`,
/// and whether it spills or not, the byte view holds the chunks one after the
/// other.
pub proof fn law_spool_threshold(chunks: Seq<Seq<u8>>)
    ensures
        SpoolModel::after(chunks).file is Some <==> joined(chunks).len() > MAX_BUF_SIZE,
        SpoolModel::after(chunks).content() == joined(chunks),
        SpoolModel::after(chunks).file is Some ==> SpoolModel::after(chunks).memory.len() == 0,
    decreases chunks.len(),
{
    if chunks.len() > 0 {
        law_spool_threshold(chunks.drop_last());
    }
}

} // verus!
