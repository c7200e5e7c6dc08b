use crate::text::{
    chars_of, decimal, floor_boundary, push_all, push_decimal, string_of, trim, trim_chars,
    truncate_at_boundary,
};
use vstd::prelude::*;
use vstd::utf8::encode_utf8;

verus! {

/// Settings of an OpenAI-compatible chat service used to summarise files.
pub struct LlmClient {
    pub api_url: String,
    pub api_key: String,
    pub model: String,
}

/// A setting counts only when it is present and not empty.
pub open spec fn setting(v: Option<Seq<char>>) -> Option<Seq<char>> {
    match v {
        Some(s) => if s.len() > 0 {
            Some(s)
        } else {
            None
        },
        None => None,
    }
}

impl LlmClient {
    /// The client for the given settings: none unless both the URL and the
    /// key are set and not empty; the model defaults to `gpt-4o-mini`.
    pub fn from_settings(api_url: Option<String>, api_key: Option<String>, model: Option<String>) -> (r: Option<LlmClient>)
        ensures
            match r {
                None => setting(api_url.deep_view()) is None || setting(api_key.deep_view()) is None,
                Some(c) => setting(api_url.deep_view()) == Some(c.api_url@) && setting(
                    api_key.deep_view(),
                ) == Some(c.api_key@) && c.model@ == match model {
                    Some(m) => m@,
                    None => "gpt-4o-mini"@,
                },
            },
    {
        let url = match api_url {
            Some(u) => u,
            None => return None,
        };
        if url.as_str().is_empty() {
            return None;
        }
        let key = match api_key {
            Some(k) => k,
            None => return None,
        };
        if key.as_str().is_empty() {
            return None;
        }
        let model = match model {
            Some(m) => m,
            None => "gpt-4o-mini".to_owned(),
        };
        Some(LlmClient { api_url: url, api_key: key, model })
    }
}

/// The most bytes of a file that are sent to be summarised.
pub open spec fn summary_limit() -> int {
    12000
}

/// The part of a file sent to be summarised: the whole file when it has at
/// most 12000 bytes; otherwise its bytes up to the last character boundary
/// not after 12000, then `...` and a note of the file's length in bytes.
pub open spec fn safe_content_spec(content: Seq<char>) -> Seq<char> {
    let b = encode_utf8(content);
    if b.len() <= summary_limit() {
        content
    } else {
        vstd::utf8::decode_utf8(b.take(floor_boundary(b, summary_limit()))) + "...\n[TRUNCADO: el original tiene "@
            + decimal(b.len()) + " caracteres]"@
    }
}

/// The request to summarise a file.
pub open spec fn summary_prompt_spec(path: Seq<char>, content: Seq<char>) -> Seq<char> {
    "Resume este archivo en 3-6 líneas:\n- Propósito principal\n- Principales funciones/clases/exports\n- Dependencias clave (qué importa o usa)\n\nARCHIVO: "@
        + path + "\n\n"@ + safe_content_spec(content)
}

/// The request to summarise a file (see [`summary_prompt_spec`]).
pub fn summary_prompt(path: &str, content: &str) -> (p: String)
    ensures
        p@ == summary_prompt_spec(path@, content@),
{
    broadcast use vstd::utf8::encode_utf8_decode_utf8;

    let mut v = chars_of(
        "Resume este archivo en 3-6 líneas:\n- Propósito principal\n- Principales funciones/clases/exports\n- Dependencias clave (qué importa o usa)\n\nARCHIVO: ",
    );
    let pc = chars_of(path);
    push_all(&mut v, pc.as_slice());
    let sep = chars_of("\n\n");
    push_all(&mut v, sep.as_slice());
    let n = content.as_bytes().len();
    if n <= 12000 {
        let cc = chars_of(content);
        push_all(&mut v, cc.as_slice());
    } else {
        let head = truncate_at_boundary(content, 12000);
        let hc = chars_of(head);
        proof {
            assert(vstd::utf8::decode_utf8(encode_utf8(head@)) == head@);
        }
        push_all(&mut v, hc.as_slice());
        let note = chars_of("...\n[TRUNCADO: el original tiene ");
        push_all(&mut v, note.as_slice());
        push_decimal(&mut v, n);
        let tail = chars_of(" caracteres]");
        push_all(&mut v, tail.as_slice());
    }
    string_of(v.as_slice())
}

/// Why a summary was not obtained.
#[derive(Clone, Copy, Debug, PartialEq, Eq, Structural)]
pub enum SummaryError {
    /// The service answered with nothing but white space.
    Empty,
}

/// The summary taken from the service's answer: the answer trimmed, or an
/// error when nothing is left.
pub fn finish_summary(reply: &str) -> (r: Result<String, SummaryError>)
    ensures
        match r {
            Ok(s) => s@ == trim(reply@) && s@.len() > 0,
            Err(e) => e == SummaryError::Empty && trim(reply@).len() == 0,
        },
{
    let cs = chars_of(reply);
    let t = trim_chars(cs.as_slice());
    if t.len() == 0 {
        Err(SummaryError::Empty)
    } else {
        Ok(string_of(t.as_slice()))
    }
}

} // verus!
