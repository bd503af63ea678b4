use smb_client::create_context::{pack_contexts, parse_contexts, CreateContext};
use smb_client::error::SmbError;

fn context(name: &[u8], data: &[u8]) -> CreateContext {
    CreateContext {
        name: name.to_vec(),
        data: data.to_vec(),
    }
}

#[test]
fn a_chain_reads_back_as_it_was_written() {
    let contexts = vec![
        context(b"MxAc", b""),
        context(b"QFid", &[1, 2, 3]),
        context(b"", &[4; 8]),
        context(b"a longer name", &[5; 17]),
    ];
    let bytes = pack_contexts(&contexts);
    let parsed = parse_contexts(&bytes).unwrap();
    assert_eq!(parsed.len(), contexts.len());
    for (parsed, expected) in parsed.iter().zip(&contexts) {
        assert_eq!(parsed.name, expected.name);
        assert_eq!(parsed.data, expected.data);
    }
}

#[test]
fn a_chain_has_the_documented_bytes() {
    let bytes = pack_contexts(&[context(b"MxAc", b""), context(b"QFid", &[9])]);
    let mut expected = vec![24, 0, 0, 0, 16, 0, 4, 0, 0, 0, 0, 0, 0, 0, 0, 0];
    expected.extend_from_slice(b"MxAc\0\0\0\0");
    expected.extend_from_slice(&[0, 0, 0, 0, 16, 0, 4, 0, 0, 0, 24, 0, 1, 0, 0, 0]);
    expected.extend_from_slice(b"QFid\0\0\0\0");
    expected.push(9);
    assert_eq!(bytes, expected);
}

#[test]
fn the_longest_name_that_fits_its_fields_reads_back() {
    let name = vec![b'n'; 65512];
    let bytes = pack_contexts(&[context(&name, &[1]), context(b"QFid", &[9])]);
    let parsed = parse_contexts(&bytes).unwrap();
    assert_eq!(parsed.len(), 2);
    assert_eq!(parsed[0].name, name);
    assert_eq!(parsed[0].data, vec![1]);
}

#[test]
fn no_bytes_are_no_contexts() {
    assert!(pack_contexts(&[]).is_empty());
    assert!(parse_contexts(&[]).unwrap().is_empty());
}

#[test]
fn broken_chains_are_rejected() {
    let good = pack_contexts(&[context(b"MxAc", b""), context(b"QFid", &[9])]);
    let change = |at: usize, value: u8| {
        let mut bytes = good.clone();
        bytes[at] = value;
        bytes
    };
    let broken = vec![
        good[..15].to_vec(),
        // The next context starts inside this one, at the end, or past it.
        change(0, 8),
        change(0, 49),
        change(0, 200),
        // A name or data that leaves its context.
        change(4, 21),
        change(7, 1),
        change(24 + 10, 25),
        change(24 + 14, 1),
        good[..good.len() - 1].to_vec(),
    ];
    for bytes in broken {
        assert!(matches!(
            parse_contexts(&bytes),
            Err(SmbError::InvalidCreateContexts)
        ));
    }
}
