use bifrost_drive::range_reads::{
    ftp_read_step, select_chunk, sftp_chunk_result, sftp_read_chunks, ReadChunk, ShortChunk, SFTP_READ_CHUNK_SIZE,
};
use bifrost_drive::storage::ByteRange;

#[test]
fn sftp_range_read_is_cut_into_pipelined_chunks() {
    let chunks = sftp_read_chunks(10, 3 * SFTP_READ_CHUNK_SIZE + 5);
    assert_eq!(chunks.len(), 4);
    assert_eq!(chunks[0], ReadChunk { index: 0, offset: 10, length: SFTP_READ_CHUNK_SIZE });
    assert_eq!(chunks[1].offset, 10 + SFTP_READ_CHUNK_SIZE);
    assert_eq!(chunks[3], ReadChunk { index: 3, offset: 10 + 3 * SFTP_READ_CHUNK_SIZE, length: 5 });
    let mut expected_offset = 10;
    for chunk in &chunks {
        assert_eq!(chunk.offset, expected_offset);
        expected_offset += chunk.length;
    }
    assert_eq!(expected_offset, 10 + 3 * SFTP_READ_CHUNK_SIZE + 5);
}

#[test]
fn sftp_exact_multiple_has_no_empty_tail_chunk() {
    let chunks = sftp_read_chunks(0, 2 * SFTP_READ_CHUNK_SIZE);
    assert_eq!(chunks.len(), 2);
    assert_eq!(chunks[1].length, SFTP_READ_CHUNK_SIZE);
    assert!(sftp_read_chunks(7, 0).is_empty());
}

#[test]
fn short_chunk_is_an_error_unless_it_is_the_last() {
    let first = ReadChunk { index: 0, offset: 100, length: 50 };
    assert_eq!(
        sftp_chunk_result(first, 20, 2),
        Err(ShortChunk { offset: 100, read: 20, length: 50 })
    );
    assert_eq!(sftp_chunk_result(first, 50, 2), Ok(50));
    let last = ReadChunk { index: 1, offset: 150, length: 50 };
    assert_eq!(sftp_chunk_result(last, 20, 2), Ok(20));
    assert_eq!(
        ShortChunk { offset: 100, read: 20, length: 50 }.message(),
        "SFTP range chunk at offset 100 ended after 20 of 50 bytes"
    );
}

#[test]
fn ftp_chunk_is_trimmed_to_the_range() {
    let range = Some(ByteRange { start: 5, end: 12 });
    assert_eq!(select_chunk(0, 4, range), None);
    assert_eq!(select_chunk(0, 8, range), Some((5, 8)));
    assert_eq!(select_chunk(8, 8, range), Some((0, 4)));
    assert_eq!(select_chunk(12, 8, range), None);
    assert_eq!(select_chunk(0, 20, range), Some((5, 12)));
    assert_eq!(select_chunk(3, 6, None), Some((0, 6)));
    assert_eq!(select_chunk(3, 0, None), None);
}

#[test]
fn ftp_download_stops_at_the_range_end() {
    let range = Some(ByteRange { start: 5, end: 12 });
    let step = ftp_read_step(8, 4, range);
    assert_eq!(step.selection, Some((0, 4)));
    assert_eq!(step.next_offset, 12);
    assert!(step.finished);
    let step = ftp_read_step(0, 8, range);
    assert_eq!(step.next_offset, 8);
    assert!(!step.finished);
    let end = ftp_read_step(8, 0, None);
    assert!(end.finished);
    assert_eq!(end.selection, None);
    assert_eq!(end.next_offset, 8);
}

#[test]
fn ftp_download_streams_exactly_the_requested_bytes() {
    let data: Vec<u8> = (0..40u8).collect();
    let chunk_sizes = [3usize, 7, 1, 9, 20];
    let range = Some(ByteRange { start: 6, end: 23 });
    let mut streamed: Vec<u8> = Vec::new();
    let mut offset: u64 = 0;
    let mut position = 0usize;
    for size in chunk_sizes {
        let chunk = &data[position..position + size];
        position += size;
        let step = ftp_read_step(offset, chunk.len(), range);
        if let Some((from, to)) = step.selection {
            streamed.extend_from_slice(&chunk[from..to]);
        }
        offset = step.next_offset;
        if step.finished {
            break;
        }
    }
    assert_eq!(streamed, data[6..23].to_vec());
}
