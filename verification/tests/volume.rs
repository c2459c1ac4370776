use arceos_arm::volume::{
    check_slice_end, commit_step, read_len, read_step, CommitStep, ReadStep, VolumeAddress,
    VolumeError,
};

#[test]
fn commit_finishes_when_rest_is_written() {
    assert_eq!(commit_step(10, 4, Some(6)), CommitStep::Done);
    assert_eq!(commit_step(0, 0, Some(0)), CommitStep::Done);
}

#[test]
fn commit_continues_after_partial_write() {
    assert_eq!(commit_step(10, 4, Some(2)), CommitStep::Continue { offset: 6 });
    assert_eq!(commit_step(10, 0, Some(0)), CommitStep::Continue { offset: 0 });
}

#[test]
fn commit_fails_on_write_error() {
    assert_eq!(commit_step(10, 4, None), CommitStep::Failed);
}

#[test]
fn read_finishes_once_enough_bytes_arrive() {
    assert_eq!(read_step(5, 8), ReadStep::Finished { take: 5 });
    assert_eq!(read_step(5, 5), ReadStep::Finished { take: 5 });
}

#[test]
fn read_continues_with_rest() {
    assert_eq!(read_step(5, 2), ReadStep::More { remaining: 3 });
    assert_eq!(read_step(5, 0), ReadStep::More { remaining: 5 });
}

#[test]
fn slice_must_end_on_disk() {
    let end = VolumeAddress { index: 1024, sector: 1, offset: 0, sector_size: 1024 };
    assert_eq!(check_slice_end(1024, end), Ok(()));
    assert_eq!(check_slice_end(4096, end), Ok(()));
    let end = VolumeAddress { index: 1025, sector: 1, offset: 1, sector_size: 1024 };
    assert_eq!(
        check_slice_end(1024, end),
        Err(VolumeError::AddressOutOfBounds { sector: 1, offset: 1, size: 1024 })
    );
}

#[test]
fn read_length_includes_both_ends() {
    assert_eq!(read_len(0, 0), 1);
    assert_eq!(read_len(1024, 2047), 1024);
}
