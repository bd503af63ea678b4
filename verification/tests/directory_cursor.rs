use smb_client::directory_cursor::{
    default_query_buffer_len, CloseDeadlines, CloseRequest, DirectoryEntry, DirectoryReader, Ending,
    PageRequest, PageStep, QueryRequest, QueryStepOutcome, SmbPathToken, Tree,
};
use smb_client::error::SmbError;
use smb_client::types::{Connection, FileId, TreeId};

const TREE: TreeId = TreeId(7);
const CONNECTION: Connection = Connection { id: 3 };
const FILE: FileId = FileId {
    persistent: 1,
    volatile: 2,
};

fn units(path: &str) -> Vec<u16> {
    path.encode_utf16().collect()
}

fn reader(path: &str, max_transact_size: u32) -> DirectoryReader {
    Tree { tree_id: TREE }.open_directory_reader_token(
        CONNECTION,
        &SmbPathToken::new(units(path)),
        FILE,
        max_transact_size,
    )
}

fn entry(name: &str, is_directory: bool, details: u32) -> DirectoryEntry<u32> {
    DirectoryEntry {
        reopen_token: SmbPathToken::new(units(name)),
        is_directory,
        details,
    }
}

fn query(restart: bool) -> Result<PageRequest, SmbError> {
    Ok(PageRequest::Query(QueryRequest {
        tree: TREE,
        connection: CONNECTION,
        file: FILE,
        restart,
        buffer_len: 65536,
    }))
}

type Answer = Result<QueryStepOutcome<u32>, String>;

fn page(reader: &mut DirectoryReader, answer: Answer) -> Vec<DirectoryEntry<u32>> {
    match reader.page_received(answer) {
        PageStep::Page(entries) => entries,
        PageStep::Close { .. } => panic!("the enumeration should go on"),
    }
}

fn ended(reader: &mut DirectoryReader, answer: Answer) -> (Option<CloseRequest>, Ending<String>) {
    match reader.page_received(answer) {
        PageStep::Page(_) => panic!("the enumeration should be over"),
        PageStep::Close { request, ending } => (request, ending),
    }
}

fn assert_closes_file(request: Option<CloseRequest>, deadlines: Option<CloseDeadlines>) {
    let request = request.unwrap();
    assert_eq!(request.tree, TREE);
    assert_eq!(request.connection, CONNECTION);
    assert_eq!(request.file, FILE);
    assert_eq!(request.deadlines, deadlines);
}

#[test]
fn only_the_first_query_restarts_the_scan() {
    let mut reader = reader("docs", 1 << 20);
    assert_eq!(reader.next_page(), query(true));
    assert_eq!(reader.next_page(), query(true), "nothing was answered yet");

    let entries = page(
        &mut reader,
        Ok(QueryStepOutcome::Entries(vec![
            entry("a.txt", false, 11),
            entry("sub", true, 12),
        ])),
    );
    assert_eq!(entries.len(), 2);
    assert_eq!(entries[0].reopen_token.units(), &units("docs\\a.txt"));
    assert!(!entries[0].is_directory);
    assert_eq!(entries[0].details, 11);
    assert_eq!(entries[1].reopen_token.units(), &units("docs\\sub"));
    assert!(entries[1].is_directory);
    assert_eq!(entries[1].details, 12);
    assert_eq!(reader.next_page(), query(false));

    assert!(page(&mut reader, Ok(QueryStepOutcome::Entries(Vec::new()))).is_empty());
    assert_eq!(reader.next_page(), query(false), "an empty page is not the end");
}

#[test]
fn entries_of_the_root_have_no_leading_separator() {
    let mut reader = reader("", 1 << 20);
    let entries = page(
        &mut reader,
        Ok(QueryStepOutcome::Entries(vec![entry("a", false, 0)])),
    );
    assert_eq!(entries[0].reopen_token.units(), &units("a"));
}

#[test]
fn the_end_is_confirmed_by_a_successful_close() {
    let mut reader = reader("docs", 1 << 20);
    assert!(reader.is_open());
    let (request, ending) = ended(&mut reader, Ok(QueryStepOutcome::NoMoreFiles));
    assert_closes_file(request, None);
    assert!(!reader.is_open());
    assert_eq!(reader.next_page(), Err(SmbError::CursorClosed), "not closed yet");
    assert_eq!(reader.page_closed(ending, Ok(())), Ok(true));
    assert_eq!(reader.next_page(), Ok(PageRequest::Finished));
    assert_eq!(reader.next_page(), Ok(PageRequest::Finished));
    assert!(reader.close().is_none());
}

#[test]
fn a_failed_close_at_the_end_is_an_error() {
    let mut reader = reader("docs", 1 << 20);
    let (_, ending) = ended(&mut reader, Ok(QueryStepOutcome::NoMoreFiles));
    assert_eq!(
        reader.page_closed(ending, Err("close failed".to_string())),
        Err("close failed".to_string())
    );
    assert_eq!(reader.next_page(), Err(SmbError::CursorClosed));
}

#[test]
fn the_end_needs_a_close_that_the_server_led_to() {
    let mut fresh = reader("docs", 1 << 20);
    let no_end: Ending<String> = Ending::EndOfDirectory;
    assert_eq!(fresh.page_closed(no_end, Ok(())), Ok(false));
    assert!(fresh.is_open());
    assert_eq!(fresh.next_page(), query(true));

    let mut failed = reader("docs", 1 << 20);
    let (_, ending) = ended(&mut failed, Err("query failed".to_string()));
    assert!(failed.page_closed(ending, Ok(())).is_err());
    let (request, ending) = ended(&mut failed, Ok(QueryStepOutcome::NoMoreFiles));
    assert!(request.is_none());
    assert_eq!(failed.page_closed(ending, Ok(())), Ok(false));
    assert_eq!(failed.next_page(), Err(SmbError::CursorClosed));
}

#[test]
fn an_enumeration_error_is_kept_as_the_primary_cause() {
    for closed in [Ok(()), Err("close failed".to_string())] {
        let mut reader = reader("docs", 1 << 20);
        let (request, ending) = ended(&mut reader, Err("query failed".to_string()));
        assert_closes_file(request, None);
        assert_eq!(
            reader.page_closed(ending, closed),
            Err("query failed".to_string())
        );
        assert_eq!(
            reader.next_page(),
            Err(SmbError::CursorClosed),
            "a failed enumeration is not a confirmed end"
        );
        assert!(!reader.is_open());
        assert!(reader.close().is_none());
    }
}

#[test]
fn deadlines_bound_every_close() {
    let deadlines = CloseDeadlines {
        attempt_ms: 100,
        total_ms: 500,
    };
    let mut at_end = reader("docs", 1 << 20);
    at_end.set_close_deadlines(deadlines);
    let (request, _) = ended(&mut at_end, Ok(QueryStepOutcome::NoMoreFiles));
    assert_closes_file(request, Some(deadlines));

    let mut early = reader("docs", 1 << 20);
    early.set_close_deadlines(deadlines);
    assert_eq!(early.next_page(), query(true));
    assert_closes_file(early.close(), Some(deadlines));

    assert_closes_file(reader("docs", 1 << 20).close(), None);
}

#[test]
fn pages_are_bounded_by_the_server_and_by_64_kib() {
    assert_eq!(default_query_buffer_len(0), 0);
    assert_eq!(default_query_buffer_len(4096), 4096);
    assert_eq!(default_query_buffer_len(65535), 65535);
    assert_eq!(default_query_buffer_len(65536), 65536);
    assert_eq!(default_query_buffer_len(u32::MAX), 65536);
    match reader("docs", 4096).next_page() {
        Ok(PageRequest::Query(query)) => assert_eq!(query.buffer_len, 4096),
        _ => panic!("a fresh cursor has a query to send"),
    }
}

#[test]
fn reparse_metadata_comes_from_the_tree_of_the_entry() {
    let mut reader = reader("docs", 1 << 20);
    assert_eq!(reader.connection(), CONNECTION);
    let entries = page(
        &mut reader,
        Ok(QueryStepOutcome::Entries(vec![entry("link", true, 0)])),
    );
    let request = reader.reparse_descriptor(&entries[0]);
    assert_eq!(request.tree, TREE);
    assert_eq!(request.connection, CONNECTION);
    assert_eq!(request.token.units(), &units("docs\\link"));
    assert!(request.is_directory);
}
