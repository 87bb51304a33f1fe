//! The chat-completion requests sent to an AI service.
use vstd::prelude::*;
use crate::json::JsonValue;
use crate::text::char_vec;

verus! {

/// `s` without the `/` characters at its end.
pub open spec fn trim_slashes(s: Seq<char>) -> Seq<char>
    decreases s.len(),
{
    if s.len() > 0 && s.last() == '/' {
        trim_slashes(s.drop_last())
    } else {
        s
    }
}

/// The completions endpoint of a service: its base address, without
/// trailing `/`, followed by `/chat/completions`.
pub fn completions_url(base_url: &str) -> (r: String)
    ensures
        r@ == trim_slashes(base_url@) + "/chat/completions"@,
{
    let c = char_vec(base_url);
    let mut n: usize = c.len();
    assert(c@.take(n as int) =~= c@);
    while n > 0 && c[n - 1] == '/'
        invariant
            n <= c@.len(),
            c@ == base_url@,
            trim_slashes(base_url@) == trim_slashes(c@.take(n as int)),
        decreases n,
    {
        assert(c@.take(n as int).drop_last() =~= c@.take(n - 1));
        n = n - 1;
    }
    let mut r = base_url.substring_char(0, n).to_owned();
    assert(c@.subrange(0, n as int) =~= c@.take(n as int));
    r.append("/chat/completions");
    r
}

/// One chat message: `{"role": role, "content": content}` and no other
/// member.
pub open spec fn is_message(v: JsonValue, role: Seq<char>, content: Seq<char>) -> bool {
    &&& v.member("role"@) matches Some(JsonValue::Str(r)) && r@ == role
    &&& v.member("content"@) matches Some(JsonValue::Str(c)) && c@ == content
    &&& forall|k: Seq<char>| k != "role"@ && k != "content"@ ==> (#[trigger] v.member(k)) is None
}

/// The members that a request body may have.
pub open spec fn is_body_key(k: Seq<char>) -> bool {
    k == "messages"@ || k == "model"@ || k == "temperature"@ || k == "stream"@ || k == "max_tokens"@
}

fn message(role: &str, content: &str) -> (r: JsonValue)
    ensures
        is_message(r, role@, content@),
{
    let mut m = JsonValue::Object(Vec::new());
    m.insert("role", JsonValue::Str(role.to_owned()));
    m.insert("content", JsonValue::Str(content.to_owned()));
    proof {
        reveal_strlit("role");
        reveal_strlit("content");
        assert("role"@.len() != "content"@.len());
    }
    m
}

/// The body of a chat-completion request: a system and a user message,
/// the model, the temperature, whether to stream, and the token limit only
/// when it is not zero.
pub fn build_request_body(
    model: &str,
    temperature: JsonValue,
    max_tokens: u32,
    system_prompt: &str,
    user_prompt: &str,
    stream: bool,
) -> (r: JsonValue)
    ensures
        r.member("messages"@) matches Some(JsonValue::Array(ms)) && ms@.len() == 2 && is_message(
            ms@[0],
            "system"@,
            system_prompt@,
        ) && is_message(ms@[1], "user"@, user_prompt@),
        r.member("model"@) matches Some(JsonValue::Str(m)) && m@ == model@,
        r.member("temperature"@) == Some(temperature),
        r.member("stream"@) == Some(JsonValue::Bool(stream)),
        max_tokens > 0 ==> r.member("max_tokens"@) == Some(JsonValue::Int(max_tokens as i64)),
        max_tokens == 0 ==> r.member("max_tokens"@) is None,
        forall|k: Seq<char>| !is_body_key(k) ==> (#[trigger] r.member(k)) is None,
{
    let messages = vec![message("system", system_prompt), message("user", user_prompt)];
    let mut body = JsonValue::Object(Vec::new());
    proof {
        reveal_strlit("messages");
        reveal_strlit("model");
        reveal_strlit("temperature");
        reveal_strlit("stream");
        reveal_strlit("max_tokens");
        assert(body.member("max_tokens"@) is None);
    }
    body.insert("messages", JsonValue::Array(messages));
    body.insert("model", JsonValue::Str(model.to_owned()));
    body.insert("temperature", temperature);
    body.insert("stream", JsonValue::Bool(stream));
    proof {
        assert("messages"@.len() != "max_tokens"@.len());
        assert("model"@.len() != "max_tokens"@.len());
        assert("temperature"@ != "max_tokens"@) by {
            assert("temperature"@[0] != "max_tokens"@[0]);
        }
        assert("stream"@.len() != "max_tokens"@.len());
        assert("messages"@.len() != "model"@.len());
        assert("messages"@ != "temperature"@) by {
            assert("temperature"@[0] != "messages"@[0]);
        }
        assert("messages"@.len() != "stream"@.len());
        assert("model"@.len() != "temperature"@.len());
        assert("model"@.len() != "stream"@.len());
        assert("temperature"@.len() != "stream"@.len());
    }
    if max_tokens > 0 {
        body.insert("max_tokens", JsonValue::Int(max_tokens as i64));
    }
    body
}

} // verus!
