//! The Unix socket that the server listens on.
use vstd::prelude::*;

use crate::error::{AppError, ErrorView};
use crate::text::join3;

verus! {

/// What stands at the path of a Unix socket.
pub enum SocketPathState {
    Absent,
    Socket,
    Other,
    Unknown(String),
}

pub open spec fn socket_path_error(path: Seq<char>, state: SocketPathState) -> Option<ErrorView> {
    match state {
        SocketPathState::Absent => None,
        SocketPathState::Socket => None,
        SocketPathState::Other => Some(
            ErrorView {
                code: "PROCESS_FAILED"@,
                message: "Unix socket path "@ + path + " already exists and is not a socket"@,
            },
        ),
        SocketPathState::Unknown(reason) => Some(
            ErrorView {
                code: "PROCESS_FAILED"@,
                message: "cannot inspect Unix socket "@ + path + ": "@ + reason@,
            },
        ),
    }
}

/// Whether what stands at the path of a Unix socket is taken away first: a
/// socket that was left there is, anything else is kept.
pub fn socket_path_step(path: &str, state: SocketPathState) -> (result: Result<bool, AppError>)
    ensures
        match result {
            Ok(remove) => socket_path_error(path@, state) is None && remove == (state is Socket),
            Err(e) => socket_path_error(path@, state) == Some(e@),
        },
{
    match state {
        SocketPathState::Absent => Ok(false),
        SocketPathState::Socket => Ok(true),
        SocketPathState::Other => Err(
            AppError::new(
                "PROCESS_FAILED",
                join3("Unix socket path ", path, " already exists and is not a socket"),
            ),
        ),
        SocketPathState::Unknown(reason) => {
            let mut message = join3("cannot inspect Unix socket ", path, ": ");
            message.append(reason.as_str());
            Err(AppError::new("PROCESS_FAILED", message))
        },
    }
}

}
