use nodem_esp32::loader::{
    boot_set, ota_fits, pkg_erase_len, verified, Chunk, EndStep, Loader, LoaderResult, UploadMode, LOADER_CHUNK_LEN,
};

#[test]
fn erase_lengths() {
    assert_eq!(pkg_erase_len(0, Some(8192), 4096), Some(0));
    assert_eq!(pkg_erase_len(1, Some(8192), 4096), Some(4096));
    assert_eq!(pkg_erase_len(4096, Some(8192), 4096), Some(4096));
    assert_eq!(pkg_erase_len(4097, Some(8192), 4096), Some(8192));
    assert_eq!(pkg_erase_len(8192, Some(8192), 4096), Some(8192));
    assert_eq!(pkg_erase_len(8193, Some(8192), 4096), None);
    assert_eq!(pkg_erase_len(1, None, 4096), None);
    assert_eq!(pkg_erase_len(1, Some(usize::MAX), 4096), Some(4096));
    assert!(ota_fits(5, Some(5)) && !ota_fits(6, Some(5)) && !ota_fits(0, None));
}

fn upload(l: &mut Loader, data: &[u8], fail_at: Option<usize>) -> (Vec<u8>, Vec<Chunk>) {
    let mut stored = Vec::new();
    let mut chunks = Vec::new();
    let mut write = |l: &mut Loader| {
        if let Some(c) = l.flush() {
            let ok = fail_at != Some(chunks.len());
            chunks.push(c);
            if ok {
                assert_eq!(c.offset, stored.len());
                stored.extend_from_slice(&l.buf[..c.len]);
            }
            l.chunk_written(c, ok);
        }
    };
    let mut at = 0;
    while at < data.len() {
        at = l.take(data, at);
        if l.len == LOADER_CHUNK_LEN {
            write(l);
        }
    }
    write(l);
    (stored, chunks)
}

#[test]
fn chunks_make_up_the_upload() {
    let data: Vec<u8> = (0..1300u32).map(|i| (i % 251) as u8).collect();
    let mut l = Loader::new();
    l.start(UploadMode::Pkg, 4096);
    let (stored, chunks) = upload(&mut l, &data, None);
    assert_eq!(stored, data);
    assert_eq!(chunks.iter().map(|c| c.len).collect::<Vec<_>>(), [512, 512, 276]);
    assert!(chunks.iter().all(|c| c.mode == UploadMode::Pkg));
    assert!(l.end() == EndStep::Done(LoaderResult::Accepted));
    assert!(l.mode.is_none());
    assert!(l.end() == EndStep::Done(LoaderResult::NotEnoughSpace));
}

#[test]
fn failed_writes_end_the_upload() {
    let data = vec![1u8; 2000];
    let mut l = Loader::new();
    l.start(UploadMode::Pkg, 4096);
    let (stored, chunks) = upload(&mut l, &data, Some(1));
    assert_eq!(stored.len(), 512);
    assert_eq!(chunks.len(), 2);
    assert!(l.end() == EndStep::Done(LoaderResult::NotEnoughSpace));
    l.start(UploadMode::Ota, 4096);
    assert!(!l.failed);
    upload(&mut l, &data, Some(0));
    assert!(l.end() == EndStep::AbortOta(LoaderResult::Aborted));
    l.start(UploadMode::Ota, 4096);
    upload(&mut l, &data, None);
    assert!(l.end() == EndStep::VerifyOta);
}

#[test]
fn refused_uploads_go_nowhere() {
    let mut l = Loader::new();
    l.start(UploadMode::Ota, 0);
    let (stored, chunks) = upload(&mut l, &[1u8; 700], None);
    assert!(stored.is_empty() && chunks.is_empty());
    assert!(l.end() == EndStep::Done(LoaderResult::NotEnoughSpace));
}

#[test]
fn firmware_results() {
    assert!(verified(true) == EndStep::SetBoot);
    assert!(verified(false) == EndStep::Done(LoaderResult::Aborted));
    assert!(boot_set(true) == EndStep::Done(LoaderResult::Accepted));
    assert!(boot_set(false) == EndStep::Done(LoaderResult::Aborted));
}
