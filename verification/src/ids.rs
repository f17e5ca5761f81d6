//! Identifiers that are made up.
use vstd::prelude::*;
use vstd::utf8::{is_ascii_chars, is_ascii_chars_encode_utf8};

use crate::config::building::token_refusal;
use crate::config::AuthMode;
use crate::project::{join_path, joined_path};
use crate::text::{
    join2, join3, opt_view, trim, trim_end, trim_start, trimmed, utf8_len, white,
};

verus! {

pub open spec fn hex_digit(c: char) -> bool {
    '0' <= c <= '9' || 'a' <= c <= 'f'
}

/// `n` hexadecimal digits.
pub open spec fn hex_digits(text: Seq<char>, n: int) -> bool {
    text.len() == n && forall|i: int| 0 <= i < text.len() ==> hex_digit(#[trigger] text[i])
}

/// Hexadecimal digits in groups of 8, 4, 4, 4 and 12, dashes between them.
pub open spec fn hyphenated(text: Seq<char>) -> bool {
    text.len() == 36 && forall|i: int|
        0 <= i < 36 ==> if i == 8 || i == 13 || i == 18 || i == 23 {
            #[trigger] text[i] == '-'
        } else {
            hex_digit(text[i])
        }
}

/// `uuid::Uuid::new_v4`, in its simple form: 32 hexadecimal digits. Which ones
/// is left to chance.
#[verifier::external_body]
fn random_id() -> (text: String)
    ensures
        hex_digits(text@, 32),
{
    uuid::Uuid::new_v4().simple().to_string()
}

/// `uuid::Uuid::now_v7`, in its hyphenated form: 36 characters. Which ones is
/// left to time and chance.
#[verifier::external_body]
fn time_ordered_id() -> (text: String)
    ensures
        hyphenated(text@),
{
    uuid::Uuid::now_v7().to_string()
}

/// The shape of a token that was made up.
pub open spec fn made_token(token: Seq<char>) -> bool {
    token.len() == 67 && token.take(3) == "cb_"@ && hex_digits(token.skip(3), 64)
}

/// The token that two draws make.
pub open spec fn drawn_token(first: Seq<char>, second: Seq<char>) -> Seq<char> {
    "cb_"@ + first + second
}

/// Make a token of two draws.
pub fn auth_token_of(first: &str, second: &str) -> (token: String)
    ensures
        token@ == drawn_token(first@, second@),
        hex_digits(first@, 32) && hex_digits(second@, 32) ==> made_token(token@),
{
    let token = join3("cb_", first, second);
    proof {
        reveal_strlit("cb_");
        if hex_digits(first@, 32) && hex_digits(second@, 32) {
            assert(token@.take(3) =~= "cb_"@);
            assert(token@.skip(3) =~= first@ + second@);
            assert forall|i: int| 0 <= i < 64 implies hex_digit(#[trigger] token@.skip(3)[i]) by {
                if i < 32 {
                    assert(token@.skip(3)[i] == first@[i]);
                } else {
                    assert(token@.skip(3)[i] == second@[i - 32]);
                }
            }
        }
    }
    token
}

/// A new authentication token.
pub fn new_auth_token() -> (token: String)
    ensures
        made_token(token@),
{
    let first = random_id();
    let second = random_id();
    auth_token_of(first.as_str(), second.as_str())
}

/// A token that was made up is accepted, wherever requests carry it.
pub proof fn made_token_is_accepted(token: Seq<char>, mode: AuthMode)
    requires
        made_token(token),
    ensures
        token_refusal(token, mode) is None,
{
    reveal_strlit("cb_");
    assert forall|i: int| 0 <= i < token.len() implies hex_digit(#[trigger] token[i]) || token[i]
        == '_' || token[i] == 'c' || token[i] == 'b' by {
        if i < 3 {
            assert(token.take(3)[i] == token[i]);
        } else {
            assert(token.skip(3)[i - 3] == token[i]);
        }
    }
    assert(is_ascii_chars(token)) by {
        assert forall|i: int| 0 <= i < token.len() implies '\0' <= #[trigger] token[i] <= '\u{7f}'
            by {}
    }
    is_ascii_chars_encode_utf8(token);
    assert(utf8_len(token) == 67);
    if token.contains('/') {
        let i = choose|i: int| 0 <= i < token.len() && token[i] == '/';
        assert(hex_digit(token[i]) || token[i] == '_' || token[i] == 'c' || token[i] == 'b');
    }
    if token.contains('\\') {
        let i = choose|i: int| 0 <= i < token.len() && token[i] == '\\';
        assert(hex_digit(token[i]) || token[i] == '_' || token[i] == 'c' || token[i] == 'b');
    }
}

/// Permissions of the file that keeps the token, and of the directory around it.
pub const TOKEN_FILE_MODE: u32 = 0o600;

pub const METADATA_MODE: u32 = 0o700;

/// Where a workspace keeps its token.
pub open spec fn token_path(root: Seq<char>, separator: char) -> Seq<char> {
    joined_path(joined_path(root, ".metadata"@, separator), "auth-token"@, separator)
}

pub fn auth_token_path(root: &str, separator: char) -> (path: String)
    ensures
        path@ == token_path(root@, separator),
{
    join_path(join_path(root, ".metadata", separator).as_str(), "auth-token", separator)
}

/// The token that a file holds, without the white space around it.
pub fn stored_token(text: &str) -> (token: String)
    ensures
        token@ == trimmed(text@),
{
    trim(text)
}

/// What a file that keeps a token holds.
pub open spec fn token_text(token: Seq<char>) -> Seq<char> {
    token + "\n"@
}

/// The token of a workspace, and what is to be written to its file: nothing where the
/// file is there, else a new token.
pub fn workspace_token(kept: Option<&str>) -> (found: (String, Option<String>))
    ensures
        match kept {
            Some(text) => found.0@ == trimmed(text@) && found.1 is None,
            None => made_token(found.0@) && opt_view(found.1) == Some(token_text(found.0@)),
        },
{
    match kept {
        Some(text) => (stored_token(text), None),
        None => {
            let token = new_auth_token();
            let text = join2(token.as_str(), "\n");
            (token, Some(text))
        },
    }
}

/// A token that was made up and written down is read back as itself, by every later
/// start.
pub proof fn made_token_is_read_back(token: Seq<char>)
    requires
        made_token(token),
    ensures
        trimmed(token_text(token)) == token,
{
    let text = token_text(token);
    reveal_strlit("cb_");
    reveal_strlit("\n");
    assert(token.take(3)[0] == token[0]);
    assert(token.skip(3)[63] == token[66]);
    assert(!white(token[0]));
    assert(hex_digit(token[66]));
    assert(!white(token[66]));
    assert(trim_start(text) == text);
    assert(text.drop_last() =~= token);
    assert(token.last() == token[66]);
    reveal_with_fuel(trim_end, 2);
}

/// A new identifier for a request.
pub fn new_request_id() -> (id: String)
    ensures
        hyphenated(id@),
{
    time_ordered_id()
}

/// The shape of the name of a file that is being written.
pub open spec fn temporary_shape(name: Seq<char>) -> bool {
    name.len() == 52 && name.take(12) == ".rust-agent-"@ && hyphenated(name.subrange(12, 48))
        && name.skip(48) == ".tmp"@
}

/// A name for a file that is being written and then takes its place.
pub fn temporary_name() -> (name: String)
    ensures
        temporary_shape(name@),
        !name@.contains('/'),
        !name@.contains('\0'),
{
    let id = time_ordered_id();
    let name = join3(".rust-agent-", id.as_str(), ".tmp");
    proof {
        reveal_strlit(".rust-agent-");
        reveal_strlit(".tmp");
        assert(name@.take(12) =~= ".rust-agent-"@);
        assert(name@.subrange(12, 48) =~= id@);
        assert(name@.skip(48) =~= ".tmp"@);
        assert forall|i: int| 0 <= i < name@.len() implies #[trigger] name@[i] != '/' && name@[i]
            != '\0' by {
            if i < 12 {
                assert(name@[i] == ".rust-agent-"@[i]);
            } else if i < 48 {
                assert(name@[i] == id@[i - 12]);
            } else {
                assert(name@[i] == ".tmp"@[i - 48]);
            }
        }
    }
    name
}

/// A workspace keeps its token in the directory of its metadata.
pub proof fn token_is_kept_in_the_metadata(root: Seq<char>)
    requires
        root.len() > 0,
        root.last() != '/',
    ensures
        token_path(root, '/') == root + "/.metadata/auth-token"@,
{
    reveal_strlit(".metadata");
    reveal_strlit("auth-token");
    reveal_strlit("/.metadata/auth-token");
    assert(token_path(root, '/') =~= root + "/.metadata/auth-token"@);
}

/// The file that keeps a token, and the directory that it is in, are for their owner alone.
pub proof fn token_is_for_its_owner_alone()
    ensures
        TOKEN_FILE_MODE % 0o100 == 0 && TOKEN_FILE_MODE / 0o100 == 6,
        METADATA_MODE % 0o100 == 0 && METADATA_MODE / 0o100 == 7,
{
}

}
