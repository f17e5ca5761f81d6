//! Who sent a request.
use vstd::prelude::*;

use crate::error::{error, error_view, AppError, ErrorView};
use crate::json::{field, JsonValue, JsonView};
use crate::project::ProjectContext;
use crate::text::opt_view;

verus! {

#[derive(Clone, Copy, Debug, PartialEq, Eq, Structural)]
pub enum TransportMode {
    Stateless,
    LegacySession,
}

impl TransportMode {
    pub fn as_str(self) -> (name: &'static str)
        ensures
            name@ == mode_name(self),
    {
        match self {
            TransportMode::Stateless => "stateless",
            TransportMode::LegacySession => "legacy_session",
        }
    }
}

pub open spec fn mode_name(mode: TransportMode) -> Seq<char> {
    match mode {
        TransportMode::Stateless => "stateless"@,
        TransportMode::LegacySession => "legacy_session"@,
    }
}

#[derive(Clone, Debug)]
pub struct RequestIdentity {
    pub openai_subject: String,
    pub openai_conversation_id: String,
    pub mcp_session_id: Option<String>,
    pub transport_mode: TransportMode,
}

pub struct IdentityView {
    pub openai_subject: Seq<char>,
    pub openai_conversation_id: Seq<char>,
    pub mcp_session_id: Option<Seq<char>>,
    pub transport_mode: TransportMode,
}

impl View for RequestIdentity {
    type V = IdentityView;

    open spec fn view(&self) -> IdentityView {
        IdentityView {
            openai_subject: self.openai_subject@,
            openai_conversation_id: self.openai_conversation_id@,
            mcp_session_id: opt_view(self.mcp_session_id),
            transport_mode: self.transport_mode,
        }
    }
}

/// The project that a tool call works in, or why there is none.
pub struct ProjectRequestContext(pub Result<ProjectContext, AppError>);

/// Who initializes a turn, or why that is not known.
pub struct InitializationRequestContext(pub Result<RequestIdentity, AppError>);

/// A text of the metadata that is not empty.
pub open spec fn meta_text(meta: JsonView, key: &str) -> Option<Seq<char>> {
    match field(meta, key@) {
        Some(JsonView::Text(text)) if text.len() > 0 => Some(text),
        _ => None,
    }
}

/// Who sent a request with this metadata, over a session if there is one.
pub open spec fn request_identity(meta: JsonView, session: Option<Seq<char>>) -> Result<
    IdentityView,
    ErrorView,
> {
    match (meta_text(meta, "openai/subject"), meta_text(meta, "openai/session")) {
        (None, _) => Err(
            error_view(
                "INCOMPLETE_OPENAI_CONTEXT",
                "MISSING_OPENAI_SUBJECT: request metadata must contain openai/subject",
            ),
        ),
        (Some(_), None) => Err(
            error_view(
                "INCOMPLETE_OPENAI_CONTEXT",
                "MISSING_OPENAI_SESSION: request metadata must contain openai/session",
            ),
        ),
        (Some(subject), Some(conversation)) => Ok(
            IdentityView {
                openai_subject: subject,
                openai_conversation_id: conversation,
                mcp_session_id: session,
                transport_mode: if session is Some {
                    TransportMode::LegacySession
                } else {
                    TransportMode::Stateless
                },
            },
        ),
    }
}

pub open spec fn identity_answer(result: Result<RequestIdentity, AppError>) -> Result<
    IdentityView,
    ErrorView,
> {
    match result {
        Ok(identity) => Ok(identity@),
        Err(e) => Err(e@),
    }
}

fn get_meta_text(meta: &JsonValue, key: &str) -> (text: Option<String>)
    ensures
        opt_view(text) == meta_text(meta@, key),
{
    match meta.get(key) {
        Some(value) => match value.as_str() {
            Some(text) => if text.is_empty() {
                None
            } else {
                Some(text.to_owned())
            },
            None => None,
        },
        None => None,
    }
}

/// Who sent a request with this metadata, over a session if there is one.
pub fn identity_from_meta(meta: &JsonValue, mcp_session_id: Option<String>) -> (result: Result<
    RequestIdentity,
    AppError,
>)
    ensures
        identity_answer(result) == request_identity(meta@, opt_view(mcp_session_id)),
{
    let openai_subject = match get_meta_text(meta, "openai/subject") {
        Some(subject) => subject,
        None => {
            return Err(
                error(
                    "INCOMPLETE_OPENAI_CONTEXT",
                    "MISSING_OPENAI_SUBJECT: request metadata must contain openai/subject",
                ),
            );
        },
    };
    let openai_conversation_id = match get_meta_text(meta, "openai/session") {
        Some(conversation) => conversation,
        None => {
            return Err(
                error(
                    "INCOMPLETE_OPENAI_CONTEXT",
                    "MISSING_OPENAI_SESSION: request metadata must contain openai/session",
                ),
            );
        },
    };
    let transport_mode = if mcp_session_id.is_some() {
        TransportMode::LegacySession
    } else {
        TransportMode::Stateless
    };
    Ok(RequestIdentity { openai_subject, openai_conversation_id, mcp_session_id, transport_mode })
}

}
