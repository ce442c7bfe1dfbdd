//! Decoding write-batch frames.

use regolith_ffi::batch::{
    decode, delete_record_len, field, set_record_len, walk, OpSink, RawOp, RecordLen,
    BATCH_COUNT_LEN, DELETE_RECORD_OVERHEAD, MAX_BATCH_RECORD_LEN, MAX_FRAME_WITHOUT_SIZING,
    OP_DELETE, OP_SET, SET_RECORD_OVERHEAD,
};
use regolith_ffi::INVALID_ARG;

enum Op<'a> {
    Put(&'a [u8], &'a [u8]),
    Delete(&'a [u8]),
}

fn frame(ops: &[Op]) -> Vec<u8> {
    let mut buf = Vec::new();
    for op in ops {
        match op {
            Op::Put(key, value) => {
                buf.push(OP_SET);
                buf.extend_from_slice(&(key.len() as u64).to_le_bytes());
                buf.extend_from_slice(key);
                buf.extend_from_slice(&(value.len() as u64).to_le_bytes());
                buf.extend_from_slice(value);
            }
            Op::Delete(key) => {
                buf.push(OP_DELETE);
                buf.extend_from_slice(&(key.len() as u64).to_le_bytes());
                buf.extend_from_slice(key);
            }
        }
    }
    buf
}

#[test]
fn decode_empty_frame_is_an_empty_batch() {
    let batch = decode(&[]).expect("an empty frame decodes");
    assert!(batch.is_empty());
    assert_eq!(batch.len(), 0);
}

#[test]
fn decode_counts_sets_and_deletes() {
    let f = frame(&[Op::Put(b"a", b"1"), Op::Delete(b"b"), Op::Put(b"c", b"")]);
    let batch = decode(&f).expect("a well-formed frame decodes");
    assert!(!batch.is_empty());
    assert_eq!(batch.len(), 3);

    let f = frame(&[Op::Put(b"", b"v")]);
    let batch = decode(&f).expect("an empty key is accepted");
    assert_eq!(batch.len(), 1);
}

#[test]
fn decode_rejects_unknown_tag() {
    for (tag, want) in [
        (0u8, "unknown tag 0"),
        (3, "unknown tag 3"),
        (255, "unknown tag 255"),
    ] {
        let err = decode(&[tag]).expect_err("an unknown tag is rejected");
        assert_eq!(err.status, INVALID_ARG);
        let detail = err.detail.expect("invalid_arg carries a detail");
        assert!(detail.contains(want), "{detail:?} missing {want:?}");
        assert!(detail.contains("op 0"), "{detail:?} missing op 0");
        assert_eq!(detail, format!("write batch op 0 has {want}"));
    }

    let mut f = frame(&[Op::Put(b"a", b"1")]);
    f.push(9);
    let err = decode(&f).expect_err("the second op's bad tag is rejected");
    let detail = err.detail.expect("invalid_arg carries a detail");
    assert!(detail.contains("op 1"), "{detail:?} missing op 1");
}

#[test]
fn decode_rejects_truncated_key() {
    let mut f = vec![OP_SET];
    f.extend_from_slice(&5u64.to_le_bytes());
    f.extend_from_slice(b"ab");
    let err = decode(&f).expect_err("a key cut short of its claimed length is rejected");
    assert!(err.detail.unwrap().contains("cut off inside its key"));

    let f = vec![OP_SET, 0, 0, 0];
    let err = decode(&f).expect_err("a key length cut short is rejected");
    assert!(err.detail.unwrap().contains("cut off in its key length"));

    let f = vec![OP_DELETE];
    let err = decode(&f).expect_err("a delete with no key length is rejected");
    assert!(err.detail.unwrap().contains("cut off in its key length"));
}

#[test]
fn decode_rejects_truncated_value() {
    let mut f = vec![OP_SET];
    f.extend_from_slice(&1u64.to_le_bytes());
    f.push(b'a');
    f.extend_from_slice(&4u64.to_le_bytes());
    f.extend_from_slice(b"xy");
    let err = decode(&f).expect_err("a value cut short of its claimed length is rejected");
    assert!(err.detail.unwrap().contains("cut off inside its value"));

    let mut f = vec![OP_SET];
    f.extend_from_slice(&1u64.to_le_bytes());
    f.push(b'a');
    let err = decode(&f).expect_err("a set with no value length is rejected");
    assert!(err.detail.unwrap().contains("cut off in its value length"));
}

#[test]
fn decode_rejects_oversized_lengths() {
    // A frame claiming an enormous length fails at the presence check,
    // proving no allocation was ever attempted from it: this test
    // completing at all is the assertion for that case.
    let mut f = vec![OP_SET];
    f.extend_from_slice(&u64::MAX.to_le_bytes());
    let err = decode(&f).expect_err("a u64::MAX key length is rejected");
    assert!(err.detail.unwrap().contains("cut off inside its key"));

    let mut f = vec![OP_SET];
    f.extend_from_slice(&(1u64 << 40).to_le_bytes());
    let err = decode(&f).expect_err("a huge key length is rejected");
    assert!(err.detail.unwrap().contains("cut off inside its key"));

    let mut f = vec![OP_SET];
    f.extend_from_slice(&1u64.to_le_bytes());
    f.push(b'a');
    f.extend_from_slice(&(1u64 << 40).to_le_bytes());
    let err = decode(&f).expect_err("a huge value length is rejected");
    assert!(err.detail.unwrap().contains("cut off inside its value"));
}

#[test]
fn boundary_batch_of_sets_lands_exactly_and_rejects_one_byte_over() {
    // Sixteen 5-byte-keyed sets: fifteen full 64 MiB values, and a
    // sixteenth tuned so the engine's record lands exactly on
    // MAX_BATCH_RECORD_LEN.
    let key_len = 5u64;
    let full_value_len = 64 * 1024 * 1024u64;
    let sets = 16u64;
    let last_at_limit = MAX_BATCH_RECORD_LEN
        - BATCH_COUNT_LEN
        - (sets - 1) * (SET_RECORD_OVERHEAD + key_len + full_value_len)
        - (SET_RECORD_OVERHEAD + key_len);
    assert_eq!(last_at_limit, 67_108_380);

    let mut record_len = RecordLen::new();
    for i in 0..sets - 1 {
        record_len
            .charge(set_record_len(key_len, full_value_len), i as usize)
            .expect("below the limit is accepted");
    }
    record_len
        .charge(set_record_len(key_len, last_at_limit), (sets - 1) as usize)
        .expect("landing exactly on the limit is accepted");
    assert_eq!(record_len.get(), MAX_BATCH_RECORD_LEN);

    // The same batch with its last value one byte larger crosses the
    // limit on that op and is rejected, with nothing charged past it.
    let mut record_len = RecordLen::new();
    for i in 0..sets - 1 {
        record_len
            .charge(set_record_len(key_len, full_value_len), i as usize)
            .unwrap();
    }
    let err = record_len
        .charge(
            set_record_len(key_len, last_at_limit + 1),
            (sets - 1) as usize,
        )
        .expect_err("one byte past the limit is rejected");
    assert_eq!(err.status, INVALID_ARG);
    let detail = err.detail.expect("invalid_arg carries a detail");
    assert!(detail.contains("op 15"), "{detail:?} missing op 15");
    assert!(
        detail.contains(&MAX_BATCH_RECORD_LEN.to_string()),
        "{detail:?} missing the byte limit"
    );
    assert!(detail.contains("split it"), "{detail:?} missing what to do");
}

#[test]
fn boundary_batch_of_deletes_lands_exactly_and_rejects_one_byte_over() {
    // Every op a delete, so the boundary exercises `delete_record_len`
    // (not `set_record_len`).
    let filler_key_len = 1_000u64;
    let filler_deletes = 4u64;
    let last_key_len_at_limit = MAX_BATCH_RECORD_LEN
        - BATCH_COUNT_LEN
        - filler_deletes * (DELETE_RECORD_OVERHEAD + filler_key_len)
        - DELETE_RECORD_OVERHEAD;
    assert_eq!(last_key_len_at_limit, 1_073_737_715);

    let mut record_len = RecordLen::new();
    for i in 0..filler_deletes {
        record_len
            .charge(delete_record_len(filler_key_len), i as usize)
            .expect("filler delete is well under the limit");
    }
    record_len
        .charge(
            delete_record_len(last_key_len_at_limit),
            filler_deletes as usize,
        )
        .expect("landing exactly on the limit is accepted");
    assert_eq!(record_len.get(), MAX_BATCH_RECORD_LEN);

    let mut record_len = RecordLen::new();
    for i in 0..filler_deletes {
        record_len
            .charge(delete_record_len(filler_key_len), i as usize)
            .unwrap();
    }
    let err = record_len
        .charge(
            delete_record_len(last_key_len_at_limit + 1),
            filler_deletes as usize,
        )
        .expect_err("one byte past the limit is rejected");
    assert_eq!(err.status, INVALID_ARG);
    let detail = err.detail.expect("invalid_arg carries a detail");
    assert!(
        detail.contains(&format!("op {filler_deletes}")),
        "{detail:?} missing op {filler_deletes}"
    );
    assert!(
        detail.contains(&MAX_BATCH_RECORD_LEN.to_string()),
        "{detail:?} missing the byte limit"
    );
}

#[test]
fn boundary_mixed_batch_lands_exactly_and_rejects_one_byte_over() {
    // Two filler sets and two filler deletes, then a final set tuned
    // to land exactly on the limit: both formulas contribute to the
    // running total, as a real mixed batch would exercise both.
    let filler_set_key_len = 10u64;
    let filler_set_value_len = 2_000u64;
    let filler_delete_key_len = 500u64;
    let last_key_len = 8u64;

    let filler_total = 2 * (SET_RECORD_OVERHEAD + filler_set_key_len + filler_set_value_len)
        + 2 * (DELETE_RECORD_OVERHEAD + filler_delete_key_len);
    let last_value_len_at_limit = MAX_BATCH_RECORD_LEN
        - BATCH_COUNT_LEN
        - filler_total
        - (SET_RECORD_OVERHEAD + last_key_len);
    assert_eq!(last_value_len_at_limit, 1_073_736_675);

    let charge_filler = |record_len: &mut RecordLen| {
        record_len
            .charge(set_record_len(filler_set_key_len, filler_set_value_len), 0)
            .unwrap();
        record_len
            .charge(set_record_len(filler_set_key_len, filler_set_value_len), 1)
            .unwrap();
        record_len
            .charge(delete_record_len(filler_delete_key_len), 2)
            .unwrap();
        record_len
            .charge(delete_record_len(filler_delete_key_len), 3)
            .unwrap();
    };

    let mut record_len = RecordLen::new();
    charge_filler(&mut record_len);
    record_len
        .charge(set_record_len(last_key_len, last_value_len_at_limit), 4)
        .expect("landing exactly on the limit is accepted");
    assert_eq!(record_len.get(), MAX_BATCH_RECORD_LEN);

    let mut record_len = RecordLen::new();
    charge_filler(&mut record_len);
    let err = record_len
        .charge(set_record_len(last_key_len, last_value_len_at_limit + 1), 4)
        .expect_err("one byte past the limit is rejected");
    assert_eq!(err.status, INVALID_ARG);
    let detail = err.detail.expect("invalid_arg carries a detail");
    assert!(detail.contains("op 4"), "{detail:?} missing op 4");
    assert!(
        detail.contains(&MAX_BATCH_RECORD_LEN.to_string()),
        "{detail:?} missing the byte limit"
    );
}

#[test]
fn a_frame_under_the_sizing_guard_cannot_reach_the_record_limit() {
    // The guard is what lets `decode` skip its sizing pass, so it has
    // to be safe in the worst case, not the common one: a frame packed
    // end to end with the cheapest op the format has, a 9-byte
    // empty-key delete, each of which costs the engine 21 bytes.
    let worst_case_record = |frame_len: u64| {
        let deletes = frame_len / (1 + 8);
        BATCH_COUNT_LEN + deletes * delete_record_len(0)
    };

    assert!(
        worst_case_record(MAX_FRAME_WITHOUT_SIZING) <= MAX_BATCH_RECORD_LEN,
        "a frame of {MAX_FRAME_WITHOUT_SIZING} bytes can reach {}, past the limit",
        worst_case_record(MAX_FRAME_WITHOUT_SIZING)
    );

    // And the other side: the smallest frame that can produce an
    // oversized record is above the guard, so no refused batch ever
    // skips the sizing pass.
    let deletes_to_pass_the_limit =
        (MAX_BATCH_RECORD_LEN - BATCH_COUNT_LEN) / delete_record_len(0) + 1;
    let smallest_oversized_frame = deletes_to_pass_the_limit * (1 + 8);
    assert!(
        BATCH_COUNT_LEN + deletes_to_pass_the_limit * delete_record_len(0)
            > MAX_BATCH_RECORD_LEN
    );
    assert!(
        smallest_oversized_frame > MAX_FRAME_WITHOUT_SIZING,
        "{smallest_oversized_frame} would skip the sizing pass"
    );
}

#[test]
fn record_lengths_have_their_documented_parts() {
    assert_eq!(MAX_BATCH_RECORD_LEN, 1 << 30);
    assert_eq!(set_record_len(0, 0), 25);
    assert_eq!(set_record_len(3, 4), 32);
    assert_eq!(delete_record_len(0), 21);
    assert_eq!(delete_record_len(3), 24);
    // Past the integer range the sum stays at its end and is refused.
    assert_eq!(set_record_len(u64::MAX, 1), u64::MAX);
    assert_eq!(delete_record_len(u64::MAX), u64::MAX);
    let mut record = RecordLen::new();
    assert_eq!(record.get(), 4);
    assert!(record.charge(u64::MAX, 0).is_err());
    assert_eq!(record.get(), 4);
}

#[test]
fn field_takes_a_field_off_the_front_or_nothing() {
    let mut bytes = Vec::new();
    bytes.extend_from_slice(&2u64.to_le_bytes());
    bytes.extend_from_slice(b"abc");
    let mut rest = &bytes[..];
    assert_eq!(field(&mut rest, 0, "key").unwrap(), b"ab");
    assert_eq!(rest, b"c");
    let failure = field(&mut rest, 7, "key").unwrap_err();
    assert_eq!(
        failure.detail.as_deref(),
        Some("write batch op 7 is cut off in its key length")
    );
    assert_eq!(rest, b"c");
}

#[test]
fn sizing_walk_charges_each_op() {
    let ops = [Op::Put(b"ab", b"cde"), Op::Delete(b"f"), Op::Put(b"", b"")];
    let f = frame(&ops);
    let mut record = RecordLen::new();
    walk(&f, &mut record).unwrap();
    // The frame's bytes plus 8 for each set, 12 for each delete, plus 4.
    assert_eq!(record.get(), f.len() as u64 + 8 * 2 + 12 + 4);

    // A walk stops at the first bad op, with what came before it taken.
    let mut f = frame(&[Op::Delete(b"f")]);
    f.push(9);
    let mut record = RecordLen::new();
    assert!(walk(&f, &mut record).is_err());
    assert_eq!(record.get(), 4 + 21 + 1);

    // Op by op it comes to the same.
    let mut record = RecordLen::new();
    record.on_op(0, RawOp::Put(b"ab", b"cde")).unwrap();
    record.on_op(1, RawOp::Delete(b"f")).unwrap();
    record.on_op(2, RawOp::Put(b"", b"")).unwrap();
    assert_eq!(record.get(), 4 + 30 + 22 + 25);
}

#[test]
fn only_whole_frames_decode() {
    let f = frame(&[Op::Put(b"a", b"1"), Op::Delete(b""), Op::Put(b"c", b"22")]);
    assert_eq!(decode(&f).unwrap().len(), 3);
    for byte in 0..=255u8 {
        let mut longer = f.clone();
        longer.push(byte);
        assert!(decode(&longer).is_err(), "trailing {byte}");
    }
    let mut shorter = f.clone();
    shorter.pop();
    assert!(decode(&shorter).is_err());
    // A frame cut at an op's end is the frame of the ops before it.
    let first = frame(&[Op::Put(b"a", b"1")]);
    assert_eq!(decode(&f[..first.len()]).unwrap().len(), 1);
}

#[test]
fn a_frame_past_the_sizing_guard_is_sized_and_decoded() {
    // One set whose value alone takes the frame past the guard, well
    // within the record limit.
    let value = vec![7u8; MAX_FRAME_WITHOUT_SIZING as usize + 1];
    let f = frame(&[Op::Put(b"k", &value), Op::Delete(b"k")]);
    assert!(f.len() as u64 > MAX_FRAME_WITHOUT_SIZING);
    assert_eq!(decode(&f).unwrap().len(), 2);
}
