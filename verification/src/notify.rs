//! Result notifications as an output party's client receives them.

use vstd::prelude::*;

verus! {

use crate::error::Error;
use vstd::string::StringExecFns;

/// The payload of a delivery attempt: the outcome of one collaboration.
#[derive(Debug, PartialEq, Eq)]
pub struct NotifyBody {
    pub message: String,
    pub code: i32,
    pub collaboration_id: i32,
    pub secret_id: String,
}

#[derive(PartialEq, Eq, Structural, Debug)]
pub enum NotifyResponse {
    NotificationAccepted,
}

/// Accept a success notification; anything else cannot be processed.
pub fn notify(notification: NotifyBody) -> (res: Result<NotifyResponse, Error>)
    ensures
        res is Ok <==> notification.code == 200,
        res matches Ok(r) ==> r == NotifyResponse::NotificationAccepted,
        res matches Err(e) ==> e matches Error::Unprocessable { message } && message@
            == "Not waiting for a notification"@,
{
    if notification.code != 200 {
        return Err(
            Error::Unprocessable {
                message: String::from_str("Not waiting for a notification"),
            },
        );
    }
    Ok(NotifyResponse::NotificationAccepted)
}

} // verus!
