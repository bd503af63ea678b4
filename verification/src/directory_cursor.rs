//! Incremental directory enumeration. A cursor keeps the same server open
//! through all QUERY_DIRECTORY pages and never makes up a file index to go on
//! from.
//!
//! The cursor decides; whoever drives it talks to the server. One page goes
//! like this: [`DirectoryReader::next_page`] says what to ask the server,
//! [`DirectoryReader::page_received`] takes the answer and, where the
//! enumeration is over, says what to close, and
//! [`DirectoryReader::page_closed`] takes the outcome of that.

use crate::error::SmbError;
use crate::types::{Connection, FileId, TreeId};
use vstd::prelude::*;

verus! {

/// No page is larger than this.
pub const MAX_PAGE_LEN: u32 = 65536;

/// Separates the parts of a path.
pub const SEPARATOR: u16 = 0x5c;

/// A path in the exact UTF-16 units that the server uses for it.
pub struct SmbPathToken {
    units: Vec<u16>,
}

impl View for SmbPathToken {
    type V = Seq<u16>;

    closed spec fn view(&self) -> Seq<u16> {
        self.units@
    }
}

/// The path of an entry of the directory at `parent`. The root has the empty
/// path.
pub open spec fn child_path(parent: Seq<u16>, name: Seq<u16>) -> Seq<u16> {
    if parent.len() == 0 {
        name
    } else {
        parent.push(SEPARATOR) + name
    }
}

impl SmbPathToken {
    pub fn new(units: Vec<u16>) -> (token: Self)
        ensures
            token@ == units@,
    {
        SmbPathToken { units }
    }

    pub fn units(&self) -> (units: &Vec<u16>)
        ensures
            units@ == self@,
    {
        &self.units
    }

    /// The same path once more.
    pub fn duplicate(&self) -> (token: Self)
        ensures
            token@ == self@,
    {
        let mut units: Vec<u16> = Vec::new();
        append_units(&mut units, &self.units);
        SmbPathToken { units }
    }

    /// The path of an entry of this directory.
    pub fn child(&self, name: &Vec<u16>) -> (token: Self)
        ensures
            token@ == child_path(self@, name@),
    {
        let mut units: Vec<u16> = Vec::new();
        if self.units.len() > 0 {
            append_units(&mut units, &self.units);
            units.push(SEPARATOR);
        }
        append_units(&mut units, name);
        SmbPathToken { units }
    }
}

fn append_units(out: &mut Vec<u16>, units: &Vec<u16>)
    ensures
        final(out)@ == old(out)@ + units@,
{
    let ghost start = out@;
    let mut i: usize = 0;
    while i < units.len()
        invariant
            i <= units@.len(),
            out@ == start + units@.take(i as int),
        decreases units@.len() - i,
    {
        out.push(units[i]);
        i = i + 1;
        proof {
            assert(out@ =~= start + units@.take(i as int));
        }
    }
    proof {
        assert(units@.take(i as int) =~= units@);
    }
}

/// One entry of a listing. `details` is whatever else the listing says of it.
pub struct DirectoryEntry<T> {
    /// As the server sends it, the bare name; as the cursor hands it out, the
    /// path under which the entry can be opened again.
    pub reopen_token: SmbPathToken,
    pub is_directory: bool,
    pub details: T,
}

/// What the server said to a query that succeeded.
pub enum QueryStepOutcome<T> {
    /// One page, which may be empty.
    Entries(Vec<DirectoryEntry<T>>),
    /// The enumeration is over.
    NoMoreFiles,
}

/// Bounds on how long closing a handle may take, in milliseconds.
#[derive(Clone, Copy, Debug, PartialEq, Eq, Structural)]
pub struct CloseDeadlines {
    pub attempt_ms: u64,
    pub total_ms: u64,
}

/// A query to send: one page of at most `buffer_len` bytes, from the beginning
/// where `restart` is set.
#[derive(Clone, Copy, Debug, PartialEq, Eq, Structural)]
pub struct QueryRequest {
    pub tree: TreeId,
    pub connection: Connection,
    pub file: FileId,
    pub restart: bool,
    pub buffer_len: u32,
}

/// What to do for the next page.
#[derive(Clone, Copy, Debug, PartialEq, Eq, Structural)]
pub enum PageRequest {
    /// The end of the directory was confirmed and the handle closed.
    Finished,
    Query(QueryRequest),
}

/// A handle to close, within these deadlines if there are any.
#[derive(Clone, Copy, Debug)]
pub struct CloseRequest {
    pub tree: TreeId,
    pub connection: Connection,
    pub file: FileId,
    pub deadlines: Option<CloseDeadlines>,
}

/// Why the enumeration is over.
pub enum Ending<E> {
    EndOfDirectory,
    Failed(E),
}

/// What to do with the answer to a query.
pub enum PageStep<T, E> {
    /// Hand out this page.
    Page(Vec<DirectoryEntry<T>>),
    /// Close the handle, if there is one, and go on with `page_closed`.
    Close { request: Option<CloseRequest>, ending: Ending<E> },
}

/// Reparse metadata to ask for, on the tree that supplied the entry.
pub struct ReparseRequest {
    pub tree: TreeId,
    pub connection: Connection,
    pub token: SmbPathToken,
    pub is_directory: bool,
}

/// The mathematical state of a directory cursor.
#[verifier::ext_equal]
pub struct CursorModel {
    pub tree: TreeId,
    pub connection: Connection,
    pub token: Seq<u16>,
    pub file: Option<FileId>,
    pub restart: bool,
    pub buffer_len: u32,
    pub finished: bool,
    /// The server said that this is the end, and the outcome of the close that
    /// follows has not come in.
    pub end_pending: bool,
    pub close_deadlines: Option<CloseDeadlines>,
}

impl CursorModel {
    /// What to do for the next page.
    pub open spec fn next_request(self) -> Result<PageRequest, SmbError> {
        if self.finished {
            Ok(PageRequest::Finished)
        } else {
            match self.file {
                Some(file) => Ok(
                    PageRequest::Query(
                        QueryRequest {
                            tree: self.tree,
                            connection: self.connection,
                            file,
                            restart: self.restart,
                            buffer_len: self.buffer_len,
                        },
                    ),
                ),
                None => Err(SmbError::CursorClosed),
            }
        }
    }

    /// What there is to close.
    pub open spec fn close_request(self) -> Option<CloseRequest> {
        match self.file {
            Some(file) => Some(
                CloseRequest {
                    tree: self.tree,
                    connection: self.connection,
                    file,
                    deadlines: self.close_deadlines,
                },
            ),
            None => None,
        }
    }

    /// The server has answered a query.
    pub open spec fn answered(self) -> CursorModel {
        CursorModel { restart: false, ..self }
    }

    /// The handle has been given up.
    pub open spec fn given_up(self) -> CursorModel {
        CursorModel { file: None, ..self }
    }

    /// The server said that this is the end. The handle, if there is one, is
    /// given up, and the end is confirmed once that is closed.
    pub open spec fn ended(self) -> CursorModel {
        CursorModel { end_pending: self.end_pending || self.file is Some, file: None, ..self }
    }

    /// The outcome of a close has come in.
    pub open spec fn close_settled(self) -> CursorModel {
        CursorModel { end_pending: false, ..self }
    }

    /// The end of the directory was confirmed and the handle closed.
    pub open spec fn done(self) -> CursorModel {
        CursorModel { finished: true, ..self.close_settled() }
    }

    /// At its end, pending or confirmed, a cursor holds no handle.
    pub open spec fn inv(self) -> bool {
        &&& self.finished ==> self.file is None
        &&& self.end_pending ==> self.file is None
        &&& !(self.finished && self.end_pending)
    }

    /// `later` can come after `self`: the cursor stays on its directory, what is
    /// behind it stays behind it, and the end comes only through a handle or a
    /// close that is pending.
    pub open spec fn leads_to(self, later: CursorModel) -> bool {
        &&& later.tree == self.tree
        &&& later.connection == self.connection
        &&& later.token == self.token
        &&& later.buffer_len == self.buffer_len
        &&& later.file is None || later.file == self.file
        &&& later.restart ==> self.restart
        &&& self.finished ==> later.finished
        &&& later.end_pending ==> self.end_pending || self.file is Some
        &&& later.finished ==> self.finished || self.end_pending || self.file is Some
    }
}

/// `bound` is the page `sent` of the directory at `parent`, with each entry's
/// bare name made into its path and nothing else changed.
pub open spec fn page_bound<T>(
    parent: Seq<u16>,
    sent: Seq<DirectoryEntry<T>>,
    bound: Seq<DirectoryEntry<T>>,
) -> bool {
    &&& bound.len() == sent.len()
    &&& forall|i: int|
        0 <= i < sent.len() ==> {
            &&& (#[trigger] bound[i]).reopen_token@ == child_path(parent, sent[i].reopen_token@)
            &&& bound[i].is_directory == sent[i].is_directory
            &&& bound[i].details == sent[i].details
        }
}

/// One opened directory and its enumeration position. Give it up with `close`
/// when stopping early. The end of the directory closes it, and so does an
/// error, which is kept as the primary cause.
pub struct DirectoryReader {
    tree: TreeId,
    connection: Connection,
    token: SmbPathToken,
    file: Option<FileId>,
    restart: bool,
    buffer_len: u32,
    finished: bool,
    end_pending: bool,
    close_deadlines: Option<CloseDeadlines>,
}

impl View for DirectoryReader {
    type V = CursorModel;

    closed spec fn view(&self) -> CursorModel {
        CursorModel {
            tree: self.tree,
            connection: self.connection,
            token: self.token@,
            file: self.file,
            restart: self.restart,
            buffer_len: self.buffer_len,
            finished: self.finished,
            end_pending: self.end_pending,
            close_deadlines: self.close_deadlines,
        }
    }
}

/// A share that the client is connected to.
#[derive(Clone, Copy, Debug, PartialEq, Eq, Structural)]
pub struct Tree {
    pub tree_id: TreeId,
}

/// The page size for a server that moves at most this many bytes at a time.
pub fn default_query_buffer_len(max_transact_size: u32) -> (len: u32)
    ensures
        len <= max_transact_size,
        len <= MAX_PAGE_LEN,
        len == max_transact_size || len == MAX_PAGE_LEN,
        len <= 65536,
        len == max_transact_size || len == 65536,
{
    if max_transact_size < MAX_PAGE_LEN {
        max_transact_size
    } else {
        MAX_PAGE_LEN
    }
}

impl Tree {
    /// Starts a paged listing of the directory at `token`, which the server has
    /// opened as `file`. Each page is bounded by what the server moves at a
    /// time, and by 64 KiB.
    pub fn open_directory_reader_token(
        &self,
        connection: Connection,
        token: &SmbPathToken,
        file: FileId,
        max_transact_size: u32,
    ) -> (reader: DirectoryReader)
        ensures
            reader@ == (CursorModel {
                tree: self.tree_id,
                connection,
                token: token@,
                file: Some(file),
                restart: true,
                buffer_len: if max_transact_size < MAX_PAGE_LEN {
                    max_transact_size
                } else {
                    MAX_PAGE_LEN
                },
                finished: false,
                end_pending: false,
                close_deadlines: None,
            }),
            reader@.inv(),
            reader@.buffer_len <= 65536 && reader@.buffer_len <= max_transact_size,
            reader@.buffer_len == 65536 || reader@.buffer_len == max_transact_size,
    {
        DirectoryReader {
            tree: self.tree_id,
            connection,
            token: token.duplicate(),
            file: Some(file),
            restart: true,
            buffer_len: default_query_buffer_len(max_transact_size),
            finished: false,
            end_pending: false,
            close_deadlines: None,
        }
    }
}

impl DirectoryReader {
    /// What to do for the next page. After a confirmed end and a successful close
    /// there is nothing left to do. A cursor that gave its handle up in any other
    /// way, also because a query or the close failed, says that it is closed.
    pub fn next_page(&self) -> (request: Result<PageRequest, SmbError>)
        ensures
            request == self@.next_request(),
    {
        if self.finished {
            return Ok(PageRequest::Finished);
        }
        match self.file {
            Some(file) => Ok(
                PageRequest::Query(
                    QueryRequest {
                        tree: self.tree,
                        connection: self.connection,
                        file,
                        restart: self.restart,
                        buffer_len: self.buffer_len,
                    },
                ),
            ),
            None => Err(SmbError::CursorClosed),
        }
    }

    /// Takes the answer to a query. A page, also an empty one, is handed out
    /// with each entry bound to this directory. The end of the directory and an
    /// error give the handle up.
    pub fn page_received<T, E>(&mut self, result: Result<QueryStepOutcome<T>, E>) -> (step:
        PageStep<T, E>)
        ensures
            match result {
                Ok(QueryStepOutcome::Entries(entries)) => {
                    &&& step matches PageStep::Page(page)
                    &&& page_bound(old(self)@.token, entries@, page@)
                    &&& final(self)@ == old(self)@.answered()
                },
                Ok(QueryStepOutcome::NoMoreFiles) => {
                    &&& step == (PageStep::<T, E>::Close {
                        request: old(self)@.close_request(),
                        ending: Ending::EndOfDirectory,
                    })
                    &&& final(self)@ == old(self)@.answered().ended()
                },
                Err(primary) => {
                    &&& step == (PageStep::<T, E>::Close {
                        request: old(self)@.close_request(),
                        ending: Ending::Failed(primary),
                    })
                    &&& final(self)@ == old(self)@.answered().given_up()
                },
            },
            step matches PageStep::Close { request, .. } ==> {
                &&& final(self)@.file is None
                &&& old(self)@.file is None ==> request is None
                &&& old(self)@.file matches Some(file) ==> request == Some(
                    CloseRequest {
                        tree: old(self)@.tree,
                        connection: old(self)@.connection,
                        file,
                        deadlines: old(self)@.close_deadlines,
                    },
                )
            },
            step is Page ==> final(self)@.file == old(self)@.file,
            old(self)@.leads_to(final(self)@),
            old(self)@.inv() ==> final(self)@.inv(),
            !final(self)@.restart,
    {
        self.restart = false;
        match result {
            Ok(QueryStepOutcome::Entries(entries)) => PageStep::Page(self.bind(entries)),
            Ok(QueryStepOutcome::NoMoreFiles) => {
                let request = self.give_up();
                if request.is_some() {
                    self.end_pending = true;
                }
                PageStep::Close { request, ending: Ending::EndOfDirectory }
            },
            Err(primary) => PageStep::Close {
                request: self.give_up(),
                ending: Ending::Failed(primary),
            },
        }
    }

    /// Takes the outcome of the close that ended the enumeration. `Ok(true)`
    /// means that the server said that this is the end and that the close which
    /// followed succeeded: only that counts as the end. `Ok(false)` means that
    /// no such close was pending. An enumeration error stands, whatever became
    /// of the close.
    pub fn page_closed<E>(&mut self, ending: Ending<E>, closed: Result<(), E>) -> (outcome: Result<
        bool,
        E,
    >)
        ensures
            match (ending, closed) {
                (Ending::Failed(primary), _) => {
                    &&& outcome == Err::<bool, E>(primary)
                    &&& final(self)@ == old(self)@.close_settled()
                },
                (Ending::EndOfDirectory, Ok(())) => {
                    &&& outcome == Ok::<bool, E>(old(self)@.end_pending)
                    &&& final(self)@ == (if old(self)@.end_pending {
                        old(self)@.done()
                    } else {
                        old(self)@
                    })
                },
                (Ending::EndOfDirectory, Err(error)) => {
                    &&& outcome == Err::<bool, E>(error)
                    &&& final(self)@ == old(self)@.close_settled()
                },
            },
            final(self)@.finished ==> old(self)@.finished || (old(self)@.end_pending
                && ending is EndOfDirectory && closed is Ok),
            !final(self)@.end_pending,
            old(self)@.leads_to(final(self)@),
            old(self)@.inv() ==> final(self)@.inv(),
    {
        let confirms = self.end_pending;
        self.end_pending = false;
        match ending {
            Ending::Failed(primary) => Err(primary),
            Ending::EndOfDirectory => match closed {
                Ok(()) => {
                    if confirms {
                        self.finished = true;
                    }
                    Ok(confirms)
                },
                Err(error) => Err(error),
            },
        }
    }

    /// Makes the bare names of a page into paths.
    fn bind<T>(&self, entries: Vec<DirectoryEntry<T>>) -> (page: Vec<DirectoryEntry<T>>)
        ensures
            page_bound(self@.token, entries@, page@),
    {
        let mut entries = entries;
        let ghost sent = entries@;
        let mut i: usize = 0;
        while i < entries.len()
            invariant
                i <= entries@.len(),
                entries@.len() == sent.len(),
                forall|j: int|
                    0 <= j < i ==> {
                        &&& (#[trigger] entries@[j]).reopen_token@ == child_path(
                            self@.token,
                            sent[j].reopen_token@,
                        )
                        &&& entries@[j].is_directory == sent[j].is_directory
                        &&& entries@[j].details == sent[j].details
                    },
                forall|j: int| i <= j < sent.len() ==> #[trigger] entries@[j] == sent[j],
            decreases entries@.len() - i,
        {
            let path = self.token.child(entries[i].reopen_token.units());
            entries[i].reopen_token = path;
            i = i + 1;
        }
        entries
    }

    /// Gives the handle up.
    fn give_up(&mut self) -> (request: Option<CloseRequest>)
        ensures
            request == old(self)@.close_request(),
            final(self)@ == old(self)@.given_up(),
    {
        match self.file.take() {
            Some(file) => Some(
                CloseRequest {
                    tree: self.tree,
                    connection: self.connection,
                    file,
                    deadlines: self.close_deadlines,
                },
            ),
            None => None,
        }
    }

    /// Connection of this exact resolved tree.
    pub fn connection(&self) -> (connection: Connection)
        ensures
            connection == self@.connection,
    {
        self.connection
    }

    /// The reparse metadata to ask for, on the same tree that supplied the
    /// entry.
    pub fn reparse_descriptor<T>(&self, entry: &DirectoryEntry<T>) -> (request: ReparseRequest)
        ensures
            request.tree == self@.tree,
            request.connection == self@.connection,
            request.token@ == entry.reopen_token@,
            request.is_directory == entry.is_directory,
    {
        ReparseRequest {
            tree: self.tree,
            connection: self.connection,
            token: entry.reopen_token.duplicate(),
            is_directory: entry.is_directory,
        }
    }

    /// Bounds control-plane cleanup, also the automatic close at the end.
    /// Deadlines do not change how the enumeration itself times out.
    pub fn set_close_deadlines(&mut self, deadlines: CloseDeadlines)
        ensures
            final(self)@ == (CursorModel { close_deadlines: Some(deadlines), ..old(self)@ }),
            old(self)@.leads_to(final(self)@),
            old(self)@.inv() ==> final(self)@.inv(),
    {
        self.close_deadlines = Some(deadlines);
    }

    /// The handle has not been given up.
    pub fn is_open(&self) -> (open: bool)
        ensures
            open == (self@.file is Some),
    {
        self.file.is_some()
    }

    /// Releases an unfinished enumeration: what there is to close. No further
    /// query can be sent.
    pub fn close(self) -> (request: Option<CloseRequest>)
        ensures
            request == self@.close_request(),
            self@.file is None ==> request is None,
            self@.file matches Some(file) ==> request == Some(
                CloseRequest {
                    tree: self@.tree,
                    connection: self@.connection,
                    file,
                    deadlines: self@.close_deadlines,
                },
            ),
    {
        let mut reader = self;
        reader.give_up()
    }
}

} // verus!
