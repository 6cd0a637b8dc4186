use gavel::frame::{
    decode_frame, encode_frame, frame_header, frame_length, FrameError, MAX_FRAME_LEN,
};
use gavel::replies::{
    batch_incomplete, default_task_name, log_path_for, no_free_id, task_not_found,
};
use gavel::text::{i32_to_string, join_with_commas, string_is, u64_to_string};

#[test]
fn decimal_of_small_and_large_numbers() {
    assert_eq!(u64_to_string(0), "0");
    assert_eq!(u64_to_string(7), "7");
    assert_eq!(u64_to_string(10), "10");
    assert_eq!(u64_to_string(12345), "12345");
    assert_eq!(u64_to_string(u64::MAX), "18446744073709551615");
}

#[test]
fn decimal_of_signed_numbers() {
    assert_eq!(i32_to_string(0), "0");
    assert_eq!(i32_to_string(42), "42");
    assert_eq!(i32_to_string(-5), "-5");
    assert_eq!(i32_to_string(i32::MIN), "-2147483648");
    assert_eq!(i32_to_string(i32::MAX), "2147483647");
}

#[test]
fn comma_join_of_gpu_indices() {
    assert_eq!(join_with_commas(&vec![]), "");
    assert_eq!(join_with_commas(&vec![3]), "3");
    assert_eq!(join_with_commas(&vec![0, 1, 12, 255]), "0,1,12,255");
}

#[test]
fn string_is_compares_whole_strings() {
    assert!(string_is(&String::from("waiting_queue"), "waiting_queue"));
    assert!(!string_is(&String::from("waiting_queue "), "waiting_queue"));
    assert!(!string_is(&String::from(""), "waiting_queue"));
}

#[test]
fn wording_of_names_and_paths() {
    assert_eq!(default_task_name(1), "task_1");
    assert_eq!(default_task_name(27), "task_27");
    assert_eq!(log_path_for("/tmp/gavel_logs", 4200), "/tmp/gavel_logs/4200.log");
    assert_eq!(task_not_found(9), "Task with ID 9 not found");
}

#[test]
fn header_is_little_endian() {
    assert_eq!(frame_header(0), Ok(vec![0, 0, 0, 0]));
    assert_eq!(frame_header(1), Ok(vec![1, 0, 0, 0]));
    assert_eq!(frame_header(0x0102_03), Ok(vec![3, 2, 1, 0]));
    assert_eq!(frame_header(10 * 1024 * 1024), Ok(vec![0, 0, 0xa0, 0]));
}

#[test]
fn frame_of_exactly_ten_mebibytes_is_accepted() {
    assert_eq!(MAX_FRAME_LEN, 10 * 1024 * 1024);
    let header = frame_header(MAX_FRAME_LEN as usize).unwrap();
    assert_eq!(frame_length(&header), Ok(MAX_FRAME_LEN));
}

#[test]
fn frame_of_ten_mebibytes_and_one_is_rejected() {
    let len: u32 = MAX_FRAME_LEN + 1;
    let header = len.to_le_bytes().to_vec();
    assert_eq!(frame_length(&header), Err(FrameError::TooLarge));
    assert_eq!(frame_header(len as usize), Err(FrameError::TooLarge));
    assert_eq!(frame_length(&vec![0xff, 0xff, 0xff, 0xff]), Err(FrameError::TooLarge));
}

#[test]
fn short_header_is_truncated() {
    assert_eq!(frame_length(&vec![1, 0, 0]), Err(FrameError::Truncated));
    assert_eq!(decode_frame(&vec![]), Err(FrameError::Truncated));
}

#[test]
fn frame_round_trip() {
    let payload: Vec<u8> = vec![9, 8, 7, 6, 5];
    let frame = encode_frame(&payload).unwrap();
    assert_eq!(frame, vec![5, 0, 0, 0, 9, 8, 7, 6, 5]);
    assert_eq!(decode_frame(&frame), Ok(payload.clone()));
    let mut longer = frame.clone();
    longer.push(77);
    assert_eq!(decode_frame(&longer), Ok(payload));
}

#[test]
fn frame_with_missing_payload_is_truncated() {
    assert_eq!(decode_frame(&vec![3, 0, 0, 0, 1, 2]), Err(FrameError::Truncated));
    assert_eq!(decode_frame(&vec![0, 0, 0, 0]), Ok(vec![]));
}

#[test]
fn frame_round_trip_at_the_limit() {
    let payload: Vec<u8> = vec![0xab; MAX_FRAME_LEN as usize];
    let frame = encode_frame(&payload).unwrap();
    assert_eq!(frame.len(), payload.len() + 4);
    assert_eq!(decode_frame(&frame), Ok(payload));
    let too_long: Vec<u8> = vec![0; MAX_FRAME_LEN as usize + 1];
    assert_eq!(encode_frame(&too_long), Err(FrameError::TooLarge));
}

#[test]
fn refusals_of_a_store_without_a_free_id_read_as_worded() {
    assert_eq!(no_free_id(), "No free task id is left");
    assert_eq!(
        batch_incomplete(2, 40),
        "Errors submitting batch tasks: 2 task(s) found no free task id, 40 submitted"
    );
}
