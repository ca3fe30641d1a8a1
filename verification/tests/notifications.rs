use mpc_core::error::Error;
use mpc_core::notify::{notify, NotifyBody, NotifyResponse};

#[test]
fn test_notify() {
    let res = notify(NotifyBody {
        message: "Hello World!".to_string(),
        code: 200,
        collaboration_id: 0,
        secret_id: "-".to_string(),
    });
    if let Ok(resp) = res {
        assert_eq!(resp, NotifyResponse::NotificationAccepted);
    }
}

#[test]
fn test_notify_failing() {
    let res = notify(NotifyBody {
        message: "Hello World!".to_string(),
        code: 400,
        collaboration_id: 0,
        secret_id: "-".to_string(),
    });
    if let Err(Error::Unprocessable { message: _ }) = res {
        assert!(true);
    } else {
        assert!(false, "Expected unprocessable response");
    }
}
