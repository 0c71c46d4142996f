use libspa::result::{AsyncSeq, SpaResult, SpaSuccess};

#[test]
fn result_spa_result() {
    assert_eq!(SpaResult::from_c(0).into_result(), Ok(SpaSuccess::Sync(0)));
    assert_eq!(SpaResult::from_c(1).into_result(), Ok(SpaSuccess::Sync(1)));
    assert_eq!(
        SpaResult::new_return_async(0).into_async_result(),
        Ok(AsyncSeq::from_seq(0))
    );
    assert_eq!(
        SpaResult::new_return_async(1).into_result(),
        Ok(SpaSuccess::Async(AsyncSeq::from_seq(1)))
    );

    let err = SpaResult::from_c(-libc::EBUSY).into_result().unwrap_err();
    assert_eq!(err.message(), "Device or resource busy");
}

#[test]
fn async_seq() {
    assert_eq!(AsyncSeq::from_seq(0).seq(), 0);
    assert_eq!(AsyncSeq::from_seq(1).seq(), 1);
}

#[test]
fn error_code_positive() {
    let err = SpaResult::from_c(-libc::ENOENT).into_result().unwrap_err();
    assert_eq!(err.code(), libc::ENOENT);
}
