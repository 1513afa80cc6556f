use pathrs::error::{error_info, Error, ErrorKind, ELOOP, ENOENT};
use pathrs::error_store::{ErrorStore, MAX_ERROR_ID};
use pathrs::resolvers::{PartialLookup, Resolver, ResolverBackend, ResolverFlags};

#[test]
fn error_info_os_error() {
    let err = Error::OsError { operation: b"openat".to_vec(), errno: ENOENT };
    assert_eq!(err.kind(), ErrorKind::OsError(ENOENT));
    let info = error_info(&err);
    assert_eq!(info.saved_errno, 2);
    assert_eq!(info.description, b"os error: openat".to_vec());
}

#[test]
fn error_info_negative_errno() {
    let err = Error::OsError { operation: b"openat2".to_vec(), errno: -ELOOP };
    let info = error_info(&err);
    assert_eq!(info.saved_errno, 40);
}

#[test]
fn error_info_invalid_argument() {
    let err = Error::InvalidArgument { field: b"path".to_vec(), reason: b"empty".to_vec() };
    let info = error_info(&err);
    assert_eq!(info.saved_errno, 0);
    assert_eq!(info.description, b"invalid argument: path: empty".to_vec());
}

#[test]
fn error_info_symlink_loop() {
    let info = error_info(&Error::SymlinkLoop);
    assert_eq!(info.saved_errno, 0);
    assert_eq!(info.description, b"symlink loop".to_vec());
}

#[test]
fn error_info_other_kinds() {
    assert_eq!(error_info(&Error::BackendUnsupported).description, b"backend unsupported".to_vec());
    assert_eq!(error_info(&Error::NotImplemented).description, b"not implemented".to_vec());
    let err = Error::SafetyViolation { reason: b"escaped".to_vec() };
    assert_eq!(error_info(&err).description, b"safety violation: escaped".to_vec());
}

#[test]
fn store_hands_out_negative_ids() {
    let mut store = ErrorStore::new();
    let id = store.store(Error::SymlinkLoop);
    assert!(id <= MAX_ERROR_ID);
    assert_eq!(store.len(), 1);
}

#[test]
fn store_ids_are_distinct() {
    let mut store = ErrorStore::new();
    let mut ids = Vec::new();
    for _ in 0..64 {
        ids.push(store.store(Error::SymlinkLoop));
    }
    assert_eq!(store.len(), 64);
    for i in 0..ids.len() {
        assert!(ids[i] <= MAX_ERROR_ID);
        for j in 0..i {
            assert_ne!(ids[i], ids[j], "ids must stay distinct until taken");
        }
    }
}

#[test]
fn store_take_roundtrip() {
    let mut store = ErrorStore::new();
    let id = store.store(Error::OsError { operation: b"openat".to_vec(), errno: ENOENT });
    let taken = store.take(id).expect("stored error must be retrievable");
    assert_eq!(taken.kind(), ErrorKind::OsError(ENOENT));
    assert!(store.take(id).is_none(), "an id is valid exactly once");
    assert_eq!(store.len(), 0);
}

#[test]
fn store_take_unknown_id() {
    let mut store = ErrorStore::new();
    assert!(store.take(-5000).is_none());
}

#[test]
fn backend_supported() {
    assert!(ResolverBackend::KernelOpenat2.supported(true));
    assert!(!ResolverBackend::KernelOpenat2.supported(false));
    assert!(ResolverBackend::EmulatedOpath.supported(true));
    assert!(ResolverBackend::EmulatedOpath.supported(false));
}

#[test]
fn backend_detect() {
    assert_eq!(ResolverBackend::detect(true), ResolverBackend::KernelOpenat2);
    assert_eq!(ResolverBackend::detect(false), ResolverBackend::EmulatedOpath);
}

#[test]
fn resolver_construction() {
    let r = Resolver::new(ResolverBackend::EmulatedOpath);
    assert_eq!(r.backend, ResolverBackend::EmulatedOpath);
    assert!(!r.flags.no_symlinks);
    assert_eq!(ResolverFlags::default(), ResolverFlags { no_symlinks: false });
}

#[test]
fn partial_lookup_as_ref() {
    let pl: PartialLookup<u32> = PartialLookup::Complete(7);
    assert_eq!(*pl.as_ref(), 7);
    let pl: PartialLookup<u32> = PartialLookup::Partial {
        handle: 9,
        remaining: b"x".to_vec(),
        last_error: Error::SymlinkLoop,
    };
    assert_eq!(*pl.as_ref(), 9);
}

#[test]
fn partial_lookup_into_handle() {
    let pl: PartialLookup<u32> = PartialLookup::Complete(7);
    assert_eq!(pl.try_into_handle().unwrap(), 7);
    let pl: PartialLookup<u32> = PartialLookup::Partial {
        handle: 9,
        remaining: b"x".to_vec(),
        last_error: Error::SymlinkLoop,
    };
    assert_eq!(pl.try_into_handle().unwrap_err().kind(), ErrorKind::SymlinkLoop);
}

#[test]
fn partial_lookup_into_parts() {
    let pl: PartialLookup<u32> = PartialLookup::Complete(7);
    assert_eq!(pl.try_into_parts().unwrap(), (7, None));

    // A partial stopped at a missing entry keeps its suffix.
    let pl: PartialLookup<u32> = PartialLookup::Partial {
        handle: 9,
        remaining: b"missing/x".to_vec(),
        last_error: Error::OsError { operation: b"openat".to_vec(), errno: ENOENT },
    };
    assert_eq!(pl.try_into_parts().unwrap(), (9, Some(b"missing/x".to_vec())));

    // Any other error is fatal.
    let pl: PartialLookup<u32> = PartialLookup::Partial {
        handle: 9,
        remaining: b"x".to_vec(),
        last_error: Error::SymlinkLoop,
    };
    assert_eq!(pl.try_into_parts().unwrap_err().kind(), ErrorKind::SymlinkLoop);
}
