//! What holds of directory cursors as a whole.

use crate::directory_cursor::{
    child_path, page_bound, CloseRequest, CursorModel, DirectoryEntry, PageRequest, QueryRequest,
};
use crate::error::SmbError;
use vstd::prelude::*;

verus! {

/// What can come after what can come after `a` can come after `a`.
pub proof fn law_enumeration_goes_on(a: CursorModel, b: CursorModel, c: CursorModel)
    requires
        a.leads_to(b),
        b.leads_to(c),
    ensures
        a.leads_to(c),
{
}

/// The scan never restarts: after the first answer, whatever it was, no query
/// asks for it. An empty page does not restart the scan either.
pub proof fn law_scan_never_restarts(answered: CursorModel, later: CursorModel)
    requires
        !answered.restart,
        answered.leads_to(later),
    ensures
        later.next_request() matches Ok(PageRequest::Query(query)) ==> !query.restart,
{
}

/// Every page comes from the same open, on the same tree and connection, and is
/// bounded alike.
pub proof fn law_pages_come_from_one_open(m: CursorModel, later: CursorModel)
    requires
        m.leads_to(later),
    ensures
        later.next_request() matches Ok(PageRequest::Query(query)) ==> m.file == Some(query.file)
            && query.tree == m.tree && query.connection == m.connection && query.buffer_len
            == m.buffer_len,
{
}

/// The end is final: nothing is queried after it.
pub proof fn law_end_is_final(m: CursorModel, later: CursorModel)
    requires
        m.finished,
        m.leads_to(later),
    ensures
        later.next_request() == Ok::<PageRequest, SmbError>(PageRequest::Finished),
{
}

/// A handle is closed at most once: after it was given up there is nothing left
/// to close, and nothing is queried through it.
pub proof fn law_handle_is_closed_once(m: CursorModel, later: CursorModel)
    requires
        m.file is None,
        m.leads_to(later),
    ensures
        later.close_request() is None,
        !(later.next_request() matches Ok(PageRequest::Query(_))),
{
}

/// A cursor that gave its handle up with no end pending says that it is closed,
/// now and in every state that it leads to, and never reports the end. That goes
/// for a query that failed, and for a close that failed at the end.
pub proof fn law_closed_cursor_says_so(m: CursorModel, later: CursorModel)
    requires
        m.file is None,
        !m.end_pending,
        !m.finished,
        m.leads_to(later),
    ensures
        later.next_request() == Err::<PageRequest, SmbError>(SmbError::CursorClosed),
{
}

/// A query that failed leaves such a cursor behind, and so does a close that
/// failed at the end.
pub proof fn law_failure_closes_the_cursor(m: CursorModel)
    requires
        m.inv(),
        m.file is Some,
    ensures
        ({
            let failed = m.answered().given_up().close_settled();
            failed.file is None && !failed.end_pending && !failed.finished
        }),
        ({
            let failed = m.answered().ended().close_settled();
            failed.file is None && !failed.end_pending && !failed.finished
        }),
{
}

/// The end is reported only by a cursor that holds no handle.
pub proof fn law_end_holds_no_handle(m: CursorModel)
    requires
        m.inv(),
        m.next_request() == Ok::<PageRequest, SmbError>(PageRequest::Finished),
    ensures
        m.file is None,
        m.close_request() is None,
{
}

/// A page, also an empty one, is not the end: the same open is queried again.
pub proof fn law_page_is_not_the_end(m: CursorModel)
    requires
        !m.finished,
        m.file is Some,
    ensures
        m.answered().next_request() matches Ok(PageRequest::Query(query)) && Some(query.file)
            == m.file,
{
}

/// Whatever is behind a cursor, ending it closes exactly the handle that it
/// holds, on its tree and connection, within the deadlines that were set. A cursor
/// that holds no handle has nothing to close.
pub proof fn law_ending_closes_the_handle(m: CursorModel)
    ensures
        m.file matches Some(file) ==> m.close_request() == Some(
            CloseRequest {
                tree: m.tree,
                connection: m.connection,
                file,
                deadlines: m.close_deadlines,
            },
        ),
        m.file is None ==> m.close_request() is None,
{
}

/// One event in the life of a cursor: a page came in, the end or an error came
/// in, a close went well or not, or the deadlines were set.
pub open spec fn is_event(before: CursorModel, after: CursorModel) -> bool {
    ||| after == before.answered()
    ||| is_end(before, after)
    ||| after == before.answered().given_up()
    ||| after == before.close_settled()
    ||| before.end_pending && after == before.done()
    ||| after.close_deadlines is Some && after == (CursorModel {
        close_deadlines: after.close_deadlines,
        ..before
    })
}

/// The server said that this is the end.
pub open spec fn is_end(before: CursorModel, after: CursorModel) -> bool {
    after == before.answered().ended()
}

/// However many pages came before, what is closed in the end is the handle that
/// the directory was opened with, and it is closed wherever it is still held.
pub proof fn law_pages_keep_the_handle_to_close(history: Seq<CursorModel>, at: int)
    requires
        0 <= at < history.len(),
        forall|i: int| 0 < i < history.len() ==> is_event(history[i - 1], #[trigger] history[i]),
    ensures
        history[at].file is Some ==> history[at].file == history[0].file,
        history[at].tree == history[0].tree,
        history[at].connection == history[0].connection,
        history[at].file matches Some(file) ==> history[at].close_request() == Some(
            CloseRequest {
                tree: history[0].tree,
                connection: history[0].connection,
                file,
                deadlines: history[at].close_deadlines,
            },
        ),
    decreases at,
{
    if at > 0 {
        law_pages_keep_the_handle_to_close(history, at - 1);
        assert(is_event(history[at - 1], history[at]));
    }
}

/// At some step of the history the server said that this is the end, and the
/// handle was handed out to be closed.
pub open spec fn was_closed_at_the_end(history: Seq<CursorModel>, i: int) -> bool {
    &&& 0 < i < history.len()
    &&& is_end(history[i - 1], history[i])
    &&& history[i - 1].file is Some
    &&& history[i - 1].close_request() == Some(
        CloseRequest {
            tree: history[0].tree,
            connection: history[0].connection,
            file: history[0].file->0,
            deadlines: history[i - 1].close_deadlines,
        },
    )
}

/// The end is never confirmed, nor about to be, without the handle having been
/// handed out to be closed.
pub proof fn law_end_comes_with_a_close_request(history: Seq<CursorModel>)
    requires
        history.len() > 0,
        !history[0].finished,
        !history[0].end_pending,
        forall|i: int| 0 < i < history.len() ==> is_event(history[i - 1], #[trigger] history[i]),
        history.last().finished || history.last().end_pending,
    ensures
        exists|i: int| #[trigger] was_closed_at_the_end(history, i),
    decreases history.len(),
{
    let n = history.len() - 1;
    assert(is_event(history[n - 1], history[n]));
    let before = history[n - 1];
    if before.finished || before.end_pending {
        let earlier = history.drop_last();
        assert forall|i: int| 0 < i < earlier.len() implies is_event(
            earlier[i - 1],
            #[trigger] earlier[i],
        ) by {
            assert(earlier[i] == history[i] && earlier[i - 1] == history[i - 1]);
        }
        law_end_comes_with_a_close_request(earlier);
        let i = choose|i: int| #[trigger] was_closed_at_the_end(earlier, i);
        assert(was_closed_at_the_end(history, i));
    } else {
        law_pages_keep_the_handle_to_close(history, n - 1);
        assert(was_closed_at_the_end(history, n));
    }
}

/// A page changes nothing but that the scan has begun.
pub proof fn law_page_only_begins_the_scan(m: CursorModel)
    ensures
        ({
            let after = m.answered();
            &&& !after.restart
            &&& after.file == m.file
            &&& after.tree == m.tree
            &&& after.connection == m.connection
            &&& after.token == m.token
            &&& after.buffer_len == m.buffer_len
            &&& after.finished == m.finished
            &&& after.end_pending == m.end_pending
            &&& after.close_deadlines == m.close_deadlines
        }),
{
}

/// An error gives the handle up and is not the end. The end gives it up too, and
/// counts once the handle that it gave up is closed.
pub proof fn law_ending_gives_the_handle_up(m: CursorModel)
    ensures
        m.given_up().file is None,
        m.given_up().finished == m.finished,
        m.given_up().end_pending == m.end_pending,
        m.ended().file is None,
        m.ended().finished == m.finished,
        m.ended().end_pending <==> m.end_pending || m.file is Some,
{
}

/// A close that went well confirms the end, any other leaves it open, and neither
/// brings a handle back.
pub proof fn law_only_a_good_close_confirms_the_end(m: CursorModel)
    ensures
        m.done().finished && !m.done().end_pending && m.done().file == m.file,
        m.close_settled().finished == m.finished,
        !m.close_settled().end_pending,
        m.close_settled().file == m.file,
{
}

/// The next page is asked for through the handle, on the tree and connection of
/// the directory, from the beginning only before the first answer, within the
/// page size. A finished cursor asks for nothing, and one without a handle fails.
pub proof fn law_next_page_is_asked_for_through_the_handle(m: CursorModel)
    ensures
        m.finished ==> m.next_request() == Ok::<PageRequest, SmbError>(PageRequest::Finished),
        !m.finished && m.file is None ==> m.next_request() == Err::<PageRequest, SmbError>(
            SmbError::CursorClosed,
        ),
        !m.finished && m.file is Some ==> m.next_request() == Ok::<PageRequest, SmbError>(
            PageRequest::Query(
                QueryRequest {
                    tree: m.tree,
                    connection: m.connection,
                    file: m.file->0,
                    restart: m.restart,
                    buffer_len: m.buffer_len,
                },
            ),
        ),
{
}

/// The path of an entry is the path of its directory, a backslash and its name.
/// In the root it is the name.
pub proof fn law_path_leads_through_its_directory(parent: Seq<u16>, name: Seq<u16>, i: int)
    ensures
        ({
            let path = child_path(parent, name);
            if parent.len() == 0 {
                path == name
            } else {
                &&& path.len() == parent.len() + 1 + name.len()
                &&& path[parent.len() as int] == 0x5c
                &&& 0 <= i < parent.len() ==> path[i] == parent[i]
                &&& 0 <= i < name.len() ==> path[parent.len() + 1 + i] == name[i]
            }
        }),
{
}

/// Two entries of a directory have different paths if they have different names.
pub proof fn law_paths_tell_entries_apart(parent: Seq<u16>, a: Seq<u16>, b: Seq<u16>)
    requires
        child_path(parent, a) == child_path(parent, b),
    ensures
        a == b,
{
    if parent.len() > 0 {
        let skipped = parent.len() as int + 1;
        assert(child_path(parent, a).skip(skipped) =~= a);
        assert(child_path(parent, b).skip(skipped) =~= b);
    }
}

/// A page is handed out entry by entry as the server sent it: none is missing,
/// added or moved, and each one's name is made into its path.
pub proof fn law_page_is_handed_out_whole<T>(
    parent: Seq<u16>,
    sent: Seq<DirectoryEntry<T>>,
    bound: Seq<DirectoryEntry<T>>,
    i: int,
)
    requires
        page_bound(parent, sent, bound),
    ensures
        bound.len() == sent.len(),
        0 <= i < sent.len() ==> {
            &&& bound[i].reopen_token@ == (if parent.len() == 0 {
                sent[i].reopen_token@
            } else {
                parent + seq![0x5cu16] + sent[i].reopen_token@
            })
            &&& bound[i].is_directory == sent[i].is_directory
            &&& bound[i].details == sent[i].details
        },
{
    if 0 <= i < sent.len() && parent.len() > 0 {
        assert(child_path(parent, sent[i].reopen_token@) =~= parent + seq![0x5cu16]
            + sent[i].reopen_token@);
    }
}

} // verus!
