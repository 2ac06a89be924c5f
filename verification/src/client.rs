//! The browser's side of the Zenoh API: the connection panel it keeps and
//! how it reads the server's replies.
use vstd::prelude::*;
use crate::zenoh_api::{ZenohConnectionState, ZenohConnectionType, ZenohStatusResponse};

verus! {

/// What the connection panel shows, and the editor's status line.
pub struct ZenohPanel {
    pub state: ZenohConnectionState,
    pub status: String,
    pub endpoint: String,
    pub connection_type: ZenohConnectionType,
    pub app_status: String,
}

/// Takes in a status report: state, status text and connection type are
/// shown as reported; the endpoint only when the report names one; the
/// status line follows when `update_app_status`.
pub fn apply_zenoh_status_response(panel: &mut ZenohPanel, response: ZenohStatusResponse, update_app_status: bool)
    ensures
        final(panel).state == response.state,
        final(panel).status@ == response.status@,
        final(panel).endpoint@ == (if response.endpoint@.len() > 0 {
            response.endpoint@
        } else {
            old(panel).endpoint@
        }),
        final(panel).connection_type == response.connection_type,
        final(panel).app_status@ == (if update_app_status {
            response.status@
        } else {
            old(panel).app_status@
        }),
{
    panel.state = response.state;
    panel.status = response.status.clone();
    if response.endpoint.unicode_len() > 0 {
        panel.endpoint = response.endpoint.clone();
    }
    panel.connection_type = response.connection_type;
    if update_app_status {
        panel.app_status = response.status;
    }
}

/// Takes in a failed request: the panel shows the error, as does the
/// status line.
pub fn apply_request_error(panel: &mut ZenohPanel, error: String)
    ensures
        final(panel).state == ZenohConnectionState::Error,
        final(panel).status@ == error@,
        final(panel).app_status@ == error@,
        final(panel).endpoint == old(panel).endpoint,
        final(panel).connection_type == old(panel).connection_type,
{
    panel.state = ZenohConnectionState::Error;
    panel.status = error.clone();
    panel.app_status = error;
}

/// How a status reply is read: the report when the request succeeded,
/// otherwise its status text as the error.
pub fn status_reply(ok: bool, payload: ZenohStatusResponse) -> (r: Result<ZenohStatusResponse, String>)
    ensures
        ok ==> r == Ok::<ZenohStatusResponse, String>(payload),
        !ok ==> (r matches Err(e) && e@ == payload.status@),
{
    if ok {
        Ok(payload)
    } else {
        Err(payload.status)
    }
}

} // verus!
