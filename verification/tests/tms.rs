use esp32_xvc::xvc::error::StreamError;
use esp32_xvc::xvc::tms::{
    StorageDescription, TmsRle, TmsStorage, MAX_RLE_RUNS, RAW_TMS_MAX_BYTES,
};

#[test]
fn equal_bytes_share_a_run() {
    let mut rle = TmsRle::new();
    for byte in [5, 5, 5, 6, 5] {
        assert_eq!(rle.push(byte), Ok(()));
    }
    assert_eq!(rle.runs(), 3);
    let mut output = [0; 5];
    assert_eq!(rle.read_into(&mut output), Ok(()));
    assert_eq!(output, [5, 5, 5, 6, 5]);
}

#[test]
fn runs_are_read_again_after_a_rewind() {
    let mut rle = TmsRle::new();
    for byte in [1, 1, 2] {
        assert_eq!(rle.push(byte), Ok(()));
    }
    let mut output = [0; 2];
    assert_eq!(rle.read_into(&mut output), Ok(()));
    assert_eq!(output, [1, 1]);
    rle.rewind();
    assert_eq!(rle.read_into(&mut output), Ok(()));
    assert_eq!(output, [1, 1]);
    let mut rest = [9; 3];
    assert_eq!(rle.read_into(&mut rest), Err(StreamError::TmsUnderflow));
    assert_eq!(rest, [2, 9, 9]);
    rle.clear();
    assert_eq!(rle.runs(), 0);
}

#[test]
fn too_many_runs_overflow() {
    let mut rle = TmsRle::new();
    for index in 0..MAX_RLE_RUNS {
        assert_eq!(rle.push((index % 2) as u8), Ok(()));
    }
    assert_eq!(rle.push(1), Ok(()));
    assert_eq!(rle.push(0), Err(StreamError::TmsRleOverflow));
    assert_eq!(rle.runs(), MAX_RLE_RUNS);
}

#[test]
fn run_without_memory_is_refused() {
    let mut rle = TmsRle::new();
    assert_eq!(rle.push_reserved(1, false), Err(StreamError::OutOfMemory));
    assert_eq!(rle.push_reserved(1, true), Ok(()));
    assert_eq!(rle.push_reserved(1, false), Ok(()));
    assert_eq!(rle.runs(), 1);
}

#[test]
fn raw_storage_gives_back_what_was_stored() {
    let mut raw = vec![0; RAW_TMS_MAX_BYTES];
    let mut storage = TmsStorage::new();
    storage.begin(RAW_TMS_MAX_BYTES);
    assert_eq!(storage.store(&mut raw, &[1, 2, 3]), Ok(()));
    assert_eq!(storage.store(&mut raw, &[4]), Ok(()));
    assert_eq!(storage.description(), StorageDescription::Raw { length: 4 });
    storage.rewind();
    let mut output = [0; 3];
    assert_eq!(storage.read_into(&raw, &mut output), Ok(()));
    assert_eq!(output, [1, 2, 3]);
    assert_eq!(storage.read_into(&raw, &mut output), Err(StreamError::TmsUnderflow));
    let mut last = [0; 1];
    assert_eq!(storage.read_into(&raw, &mut last), Ok(()));
    assert_eq!(last, [4]);
}

#[test]
fn raw_storage_does_not_outgrow_its_buffer() {
    let mut raw = [0; 4];
    let mut storage = TmsStorage::new();
    storage.begin(4);
    assert_eq!(storage.store(&mut raw, &[1, 2, 3]), Ok(()));
    assert_eq!(storage.store(&mut raw, &[4, 5]), Err(StreamError::ShiftTooLarge));
    assert_eq!(raw, [1, 2, 3, 0]);
}

#[test]
fn large_vectors_are_kept_in_runs() {
    let mut raw = [0; 1];
    let mut storage = TmsStorage::new();
    storage.begin(RAW_TMS_MAX_BYTES + 1);
    assert_eq!(storage.store(&mut raw, &vec![0; RAW_TMS_MAX_BYTES]), Ok(()));
    assert_eq!(storage.store(&mut raw, &[7]), Ok(()));
    assert_eq!(storage.description(), StorageDescription::Rle { runs: 2 });
    storage.rewind();
    let mut output = vec![9; RAW_TMS_MAX_BYTES + 1];
    assert_eq!(storage.read_into(&raw, &mut output), Ok(()));
    assert_eq!(output[RAW_TMS_MAX_BYTES - 1..], [0, 7]);
    storage.begin(1);
    assert_eq!(storage.description(), StorageDescription::Raw { length: 0 });
}

#[test]
fn pieces_are_stored_as_far_as_memory_goes() {
    let mut rle = TmsRle::new();
    assert_eq!(rle.push_all_reserved(&[1, 1, 2, 3], 2), Err(StreamError::OutOfMemory));
    assert_eq!(rle.runs(), 2);
    assert_eq!(rle.push_all_reserved(&[2, 2], 0), Ok(()));
    assert_eq!(rle.push_all_reserved(&[3], 1), Ok(()));
    let mut output = [0; 6];
    assert_eq!(rle.read_into(&mut output), Ok(()));
    assert_eq!(output, [1, 1, 2, 2, 2, 3]);
}

#[test]
fn pieces_with_too_many_runs_overflow_if_memory_is_there() {
    let piece: Vec<u8> = (0..MAX_RLE_RUNS + 1).map(|i| (i % 2) as u8).collect();
    let mut rle = TmsRle::new();
    assert_eq!(
        rle.push_all_reserved(&piece, MAX_RLE_RUNS),
        Err(StreamError::TmsRleOverflow)
    );
    assert_eq!(rle.runs(), MAX_RLE_RUNS);
    let mut rle = TmsRle::new();
    assert_eq!(
        rle.push_all_reserved(&piece, MAX_RLE_RUNS - 1),
        Err(StreamError::OutOfMemory)
    );
    assert_eq!(rle.runs(), MAX_RLE_RUNS - 1);
}

#[test]
fn storing_leaves_the_rest_of_the_buffer_alone() {
    let mut raw = [9; 6];
    let mut storage = TmsStorage::new();
    storage.begin(6);
    assert_eq!(storage.store(&mut raw, &[1, 2]), Ok(()));
    assert_eq!(storage.store(&mut raw, &[3]), Ok(()));
    assert_eq!(raw, [1, 2, 3, 9, 9, 9]);
}
