//! The credentials of a request.
use vstd::prelude::*;

use crate::base64;
use crate::config::AuthConfig;
use crate::error::{Error, Result};
use crate::text;

verus! {

/// The file that holds the secret, where the secret is needed and is in a file.
pub open spec fn secret_path(cfg: AuthConfig) -> Option<Seq<char>> {
    if cfg.authorization is Some {
        None
    } else if cfg.bearer() {
        match (cfg.bearer_token, cfg.bearer_token_file) {
            (None, Some(p)) => Some(p@),
            _ => None,
        }
    } else if cfg.username is Some {
        match (cfg.password, cfg.password_file) {
            (None, Some(p)) => Some(p@),
            _ => None,
        }
    } else {
        None
    }
}

/// The secret: as it is configured, or what the file says without the white space around it.
pub open spec fn secret(inline: Option<String>, content: Seq<char>) -> Seq<char> {
    match inline {
        Some(s) => s@,
        None => text::trimmed(content),
    }
}

/// A user with a password, as they are encoded.
pub open spec fn user_and_password(cfg: AuthConfig, content: Seq<char>) -> Seq<char> {
    cfg.username->0@ + ":"@ + secret(cfg.password, content)
}

/// The value of the `Authorization` header, where the file of the secret holds `content`.
pub open spec fn header(cfg: AuthConfig, content: Seq<char>) -> Option<Seq<char>> {
    match cfg.authorization {
        Some(v) => Some(v@),
        None => if cfg.bearer() {
            Some("Bearer "@ + secret(cfg.bearer_token, content))
        } else if cfg.username is Some {
            Some("Basic "@ + base64::encoded(vstd::utf8::encode_utf8(user_and_password(cfg, content))))
        } else {
            None
        },
    }
}

/// There is a password for the user.
pub open spec fn complete(cfg: AuthConfig) -> bool {
    cfg.username is Some ==> cfg.password is Some || cfg.password_file is Some
}

/// The encoding of the user and the password has a length that fits in `usize`.
pub open spec fn encodable(cfg: AuthConfig, content: Seq<char>) -> bool {
    cfg.username is Some ==> base64::encoded_len(
        vstd::utf8::encode_utf8(user_and_password(cfg, content)).len() as int,
    ) <= usize::MAX
}

/// Credentials that are valid are complete.
pub proof fn valid_credentials_are_complete(cfg: AuthConfig, ctx: Seq<char>)
    requires
        cfg.fault(ctx) is None,
    ensures
        complete(cfg),
{
}

/// Which file has to be read for the header.
pub fn secret_file(cfg: &AuthConfig) -> (r: Option<String>)
    ensures
        match r {
            Some(p) => secret_path(*cfg) == Some(p@),
            None => secret_path(*cfg) is None,
        },
{
    if cfg.authorization.is_some() {
        return None;
    }
    if cfg.bearer_token.is_some() {
        return None;
    }
    match &cfg.bearer_token_file {
        Some(p) => {
            return Some(p.clone());
        },
        None => {},
    }
    if cfg.username.is_some() && cfg.password.is_none() {
        match &cfg.password_file {
            Some(p) => {
                return Some(p.clone());
            },
            None => {},
        }
    }
    None
}

fn secret_of(inline: &Option<String>, content: &str) -> (r: String)
    ensures
        r@ == secret(*inline, content@),
{
    match inline {
        Some(s) => s.clone(),
        None => text::trim(content),
    }
}

/// Whether the user and the password can be encoded.
pub fn can_encode(cfg: &AuthConfig, content: &str) -> (r: bool)
    ensures
        r == encodable(*cfg, content@),
{
    match &cfg.username {
        Some(user) => {
            let password = secret_of(&cfg.password, content);
            let both = text::cat3(user.as_str(), ":", password.as_str());
            let n: usize = both.as_str().as_bytes().len();
            (n as u128 + 2) / 3 * 4 <= usize::MAX as u128
        },
        None => true,
    }
}

/// The value of the `Authorization` header, given what reading the file of the secret came
/// to: its contents, or why it could not be read.
pub fn resolve_header(cfg: &AuthConfig, file: &std::result::Result<String, String>) -> (r: Result<
    Option<String>,
>)
    requires
        complete(*cfg),
        file matches Ok(content) ==> encodable(*cfg, content@),
        secret_path(*cfg) is None ==> file is Ok,
    ensures
        match *file {
            Ok(content) => r matches Ok(h) && match h {
                Some(v) => header(*cfg, content@) == Some(v@),
                None => header(*cfg, content@) is None,
            },
            Err(e) => r matches Err(Error::FileRead { path, source }) && secret_path(*cfg) == Some(
                path@,
            ) && source@ == e@,
        },
{
    let content: String = match file {
        Ok(c) => c.clone(),
        Err(e) => {
            let path = match secret_file(cfg) {
                Some(p) => p,
                None => String::new(),
            };
            return Err(Error::FileRead { path, source: e.clone() });
        },
    };
    match &cfg.authorization {
        Some(v) => {
            return Ok(Some(v.clone()));
        },
        None => {},
    }
    if cfg.bearer_token.is_some() || cfg.bearer_token_file.is_some() {
        let token = secret_of(&cfg.bearer_token, content.as_str());
        return Ok(Some(text::cat2("Bearer ", token.as_str())));
    }
    match &cfg.username {
        Some(user) => {
            let password = secret_of(&cfg.password, content.as_str());
            let both = text::cat3(user.as_str(), ":", password.as_str());
            let code = base64::encode(both.as_str().as_bytes());
            Ok(Some(text::cat2("Basic ", code.as_str())))
        },
        None => Ok(None),
    }
}

// Laws

/// A header that is configured is sent as it is, and nothing is read for it.
pub proof fn a_header_is_sent_as_it_is(cfg: AuthConfig, content: Seq<char>)
    ensures
        cfg.authorization matches Some(v) ==> header(cfg, content) == Some(v@) && secret_path(cfg) is None,
        cfg.authorization is None && cfg.bearer_token is None && cfg.bearer_token_file is None
            && cfg.username is None ==> header(cfg, content) is None && secret_path(cfg) is None,
{
}

/// A token is sent as `Bearer`, a blank and the token: the one that is configured, whatever any
/// file holds, else what its file says, without the white space around it. Only a token that is
/// not configured is read, and from the file of the token.
pub proof fn a_token_is_sent_as_bearer(cfg: AuthConfig, content: Seq<char>)
    requires
        cfg.authorization is None,
    ensures
        cfg.bearer_token matches Some(t) ==> header(cfg, content) == Some("Bearer "@ + t@)
            && secret_path(cfg) is None,
        cfg.bearer_token is None && cfg.bearer_token_file is Some ==> header(
            cfg,
            content,
        ) == Some("Bearer "@ + text::trimmed(content)) && secret_path(cfg) == Some(
            cfg.bearer_token_file->0@,
        ),
{
}

/// A user with a password is sent as `Basic`, a blank, and the base64 of the user, a colon and the
/// password: the one that is configured, whatever any file holds, else what its file says, without
/// the white space around it.
pub proof fn a_user_is_sent_as_basic(cfg: AuthConfig, user: String, content: Seq<char>)
    requires
        cfg.authorization is None,
        cfg.bearer_token is None,
        cfg.bearer_token_file is None,
        cfg.username == Some(user),
    ensures
        cfg.password matches Some(p) ==> header(cfg, content) == Some(
            "Basic "@ + base64::encoded(vstd::utf8::encode_utf8(user@ + seq![':'] + p@)),
        ) && secret_path(cfg) is None,
        cfg.password is None ==> header(cfg, content) == Some(
            "Basic "@ + base64::encoded(
                vstd::utf8::encode_utf8(user@ + seq![':'] + text::trimmed(content)),
            ),
        ),
        cfg.password is None && cfg.password_file is Some ==> secret_path(cfg)
            == Some(cfg.password_file->0@),
{
    reveal_strlit(":");
    assert(":"@ =~= seq![':']);
}

/// Four characters for every three bytes that are begun have to fit.
pub proof fn short_credentials_can_be_encoded(cfg: AuthConfig, content: Seq<char>)
    ensures
        cfg.username is None ==> encodable(cfg, content),
        cfg.username is Some ==> (encodable(cfg, content) <==> 4 * ((vstd::utf8::encode_utf8(
            user_and_password(cfg, content),
        ).len() + 2) / 3) <= usize::MAX),
{
}

} // verus!
