//! The sort client: endpoint configuration, the error taxonomy, the
//! construction of the one chat-completion request, and the interpretation
//! of the reply.
//!
//! The single HTTP round trip itself is outside this library; an embedding
//! application takes a [`PreparedRequest`], performs the POST it describes,
//! and hands the status and body back to [`Vibesort::handle_response_i64`]
//! or [`Vibesort::handle_response_str`].
use vstd::prelude::*;

use crate::dec::dec_rep;
use crate::json::chars_to_string;
use crate::json::encode_i64_array;
use crate::json::encode_str_array;
use crate::json::json_i64_arr;
use crate::json::json_str_arr;
use crate::json::json_string;
use crate::json::list_view;
use crate::json::parse_i64_array;
use crate::json::parse_reply;
use crate::json::parse_str_array;
use crate::json::push_json_string;
use crate::json::sp_i64_list;
use crate::json::sp_str_list;
use crate::json::sp_top;
use crate::json::to_chars;
use crate::json::trim_chars;
use crate::json::trim_text;
use vstd::string::StrSliceExecFns;
use vstd::string::StringExecFns;

verus! {

/// What can go wrong while sorting through the remote service. Every error
/// is returned as a value; nothing is retried here.
#[derive(Debug)]
pub enum VibesortError {
    /// The request never completed: connection, name resolution or
    /// transport failure. Raised by the embedding application, which alone
    /// performs the exchange; the payload is its description of the cause.
    HttpError(String),
    /// The reply body was not a well-formed chat completion object.
    JsonError(String),
    /// The service answered with a status outside the 200 range; the
    /// payload carries the status and the raw body.
    ApiError(String),
    /// The reply was well-formed but held no choice to read.
    InvalidResponse,
    /// The first choice's content could not be read as a sorted array; the
    /// payload carries the full content, for diagnosis.
    ParseError(String),
}

/// The client: the three pieces of endpoint configuration, set once at
/// construction and never changed.
#[derive(Debug, Clone)]
pub struct Vibesort {
    /// The credential sent as a bearer token.
    pub api_key: String,
    /// The model identifier named in the request.
    pub model: String,
    /// The base URL; the request goes to `{base_url}/chat/completions`.
    pub base_url: String,
}

/// One HTTP request, ready to send: the URL, the two header values and the
/// body that the embedding application must POST.
pub struct PreparedRequest {
    /// Where to POST.
    pub url: String,
    /// The value of the `Authorization` header.
    pub authorization: String,
    /// The value of the `Content-Type` header.
    pub content_type: String,
    /// The request body.
    pub body: String,
}

/// The instruction under which the service is asked to sort.
pub open spec fn system_prompt_text() -> Seq<char> {
    "You are a helpful assistant that sorts arrays. Sort the following JSON array with ascending order and return ONLY the sorted JSON array, nothing else."@
}

/// The request body: the model, the fixed system instruction, the payload
/// as the user message, and temperature zero.
pub open spec fn chat_body_text(model: Seq<char>, payload: Seq<char>) -> Seq<char> {
    "{\"model\":"@ + json_string(model) + ",\"messages\":[{\"role\":\"system\",\"content\":"@
        + json_string(system_prompt_text()) + "},{\"role\":\"user\",\"content\":"@ + json_string(
        payload,
    ) + "}],\"temperature\":0.0}"@
}

/// The message of an `ApiError`: the status, then the raw body.
pub open spec fn api_error_text(status: u16, body: Seq<char>) -> Seq<char> {
    "API returned status "@ + dec_rep(status as nat) + "\nServer response: "@ + body
}

/// The message of a `JsonError`.
pub open spec fn json_error_text() -> Seq<char> {
    "response body is not a chat completion object"@
}

/// The message of a `ParseError`: a fixed diagnosis, then the full content
/// the service returned, so that a caller can see what the model wrote.
pub open spec fn parse_error_text(content: Seq<char>) -> Seq<char> {
    "Failed to parse as JSON array\nLLM returned: "@ + content
}

/// The sequence of views of a list of strings.
pub open spec fn strs_view(v: Seq<String>) -> Seq<Seq<char>> {
    Seq::new(v.len(), |k: int| v[k]@)
}

/// Everything `prepare_i64` promises of its result, as one predicate:
/// every field of the prepared request is a function of the configuration
/// and the items alone.
pub open spec fn prepare_i64_post(r: PreparedRequest, c: Vibesort, items: Seq<i64>) -> bool {
    &&& r.url@ == c.base_url@ + "/chat/completions"@
    &&& r.authorization@ == "Bearer "@ + c.api_key@
    &&& r.content_type@ == "application/json"@
    &&& r.body@ == chat_body_text(c.model@, json_i64_arr(items))
}

/// As `prepare_i64_post`, for `prepare_str`.
pub open spec fn prepare_str_post(r: PreparedRequest, c: Vibesort, items: Seq<String>) -> bool {
    &&& r.url@ == c.base_url@ + "/chat/completions"@
    &&& r.authorization@ == "Bearer "@ + c.api_key@
    &&& r.content_type@ == "application/json"@
    &&& r.body@ == chat_body_text(c.model@, json_str_arr(strs_view(items)))
}

/// Everything `handle_response_i64` promises of its result, as one
/// predicate: which outcome comes back for which status and body, and the
/// exact message each error carries.
pub open spec fn handle_i64_post(
    r: Result<Vec<i64>, VibesortError>,
    status: u16,
    body: Seq<char>,
) -> bool {
    &&& !(200 <= status < 300) ==> (r matches Err(e) && e matches VibesortError::ApiError(m)
        && m@ == api_error_text(status, body))
    &&& (200 <= status < 300 && sp_top(body) is None) ==> (r matches Err(e) && e matches
        VibesortError::JsonError(m) && m@ == json_error_text())
    &&& 200 <= status < 300 ==> (sp_top(body) matches Some(cs) ==> {
        if cs.len() == 0 {
            r matches Err(e) && e is InvalidResponse
        } else {
            match sp_i64_list(trim_text(cs[0])) {
                Some(vs) => r matches Ok(v) && v@ == vs,
                None => r matches Err(e) && e matches VibesortError::ParseError(m) && m@
                    == parse_error_text(trim_text(cs[0])),
            }
        }
    })
}

/// As `handle_i64_post`, for `handle_response_str`.
pub open spec fn handle_str_post(
    r: Result<Vec<String>, VibesortError>,
    status: u16,
    body: Seq<char>,
) -> bool {
    &&& !(200 <= status < 300) ==> (r matches Err(e) && e matches VibesortError::ApiError(m)
        && m@ == api_error_text(status, body))
    &&& (200 <= status < 300 && sp_top(body) is None) ==> (r matches Err(e) && e matches
        VibesortError::JsonError(m) && m@ == json_error_text())
    &&& 200 <= status < 300 ==> (sp_top(body) matches Some(cs) ==> {
        if cs.len() == 0 {
            r matches Err(e) && e is InvalidResponse
        } else {
            match sp_str_list(trim_text(cs[0])) {
                Some(vs) => r matches Ok(v) && strs_view(v@) == vs,
                None => r matches Err(e) && e matches VibesortError::ParseError(m) && m@
                    == parse_error_text(trim_text(cs[0])),
            }
        }
    })
}

/// Appends the text of `lit`.
fn push_lit(out: &mut Vec<char>, lit: &str)
    ensures
        final(out)@ == old(out)@ + lit@,
{
    let n = lit.unicode_len();
    let mut k: usize = 0;
    while k < n
        invariant
            k <= n,
            n == lit@.len(),
            out@ == old(out)@ + lit@.subrange(0, k as int),
        decreases n - k,
    {
        out.push(lit.get_char(k));
        proof {
            assert(old(out)@ + lit@.subrange(0, k as int + 1) =~= (old(out)@ + lit@.subrange(
                0,
                k as int,
            )).push(lit@[k as int]));
        }
        k += 1;
    }
    proof {
        assert(lit@.subrange(0, n as int) =~= lit@);
    }
}

/// Appends the given characters.
fn push_chars(out: &mut Vec<char>, v: &Vec<char>)
    ensures
        final(out)@ == old(out)@ + v@,
{
    let mut k: usize = 0;
    while k < v.len()
        invariant
            k <= v.len(),
            out@ == old(out)@ + v@.subrange(0, k as int),
        decreases v.len() - k,
    {
        out.push(v[k]);
        proof {
            assert(old(out)@ + v@.subrange(0, k as int + 1) =~= (old(out)@ + v@.subrange(
                0,
                k as int,
            )).push(v@[k as int]));
        }
        k += 1;
    }
    proof {
        assert(v@.subrange(0, v.len() as int) =~= v@);
    }
}

/// The fixed system instruction, as text.
fn system_prompt() -> (r: &'static str)
    ensures
        r@ == system_prompt_text(),
{
    "You are a helpful assistant that sorts arrays. Sort the following JSON array with ascending order and return ONLY the sorted JSON array, nothing else."
}

/// Writes the request body for the given model and payload.
fn build_body(model: &str, payload: &Vec<char>) -> (r: String)
    ensures
        r@ == chat_body_text(model@, payload@),
{
    let mut out: Vec<char> = Vec::new();
    push_lit(&mut out, "{\"model\":");
    let mc = to_chars(model);
    push_json_string(&mut out, &mc);
    push_lit(&mut out, ",\"messages\":[{\"role\":\"system\",\"content\":");
    let pc = to_chars(system_prompt());
    push_json_string(&mut out, &pc);
    push_lit(&mut out, "},{\"role\":\"user\",\"content\":");
    push_json_string(&mut out, payload);
    push_lit(&mut out, "}],\"temperature\":0.0}");
    proof {
        assert(out@ =~= chat_body_text(model@, payload@));
    }
    chars_to_string(&out)
}

/// Writes the message of an `ApiError`.
fn build_api_error(status: u16, body: &str) -> (r: String)
    ensures
        r@ == api_error_text(status, body@),
{
    let mut out: Vec<char> = Vec::new();
    push_lit(&mut out, "API returned status ");
    crate::dec::push_dec_u64(&mut out, status as u64);
    push_lit(&mut out, "\nServer response: ");
    let bc = to_chars(body);
    push_chars(&mut out, &bc);
    proof {
        assert(out@ =~= api_error_text(status, body@));
    }
    chars_to_string(&out)
}

/// Writes the message of a `ParseError` around the returned content.
fn build_parse_error(content: &Vec<char>) -> (r: String)
    ensures
        r@ == parse_error_text(content@),
{
    let mut out: Vec<char> = Vec::new();
    push_lit(&mut out, "Failed to parse as JSON array\nLLM returned: ");
    push_chars(&mut out, content);
    proof {
        assert(out@ =~= parse_error_text(content@));
    }
    chars_to_string(&out)
}

impl Vibesort {
    /// Builds a client from the credential, the model identifier and the
    /// base URL, exactly as given: nothing is validated or normalized.
    pub fn new(api_key: &str, model: &str, base_url: &str) -> (r: Vibesort)
        ensures
            r.api_key@ == api_key@,
            r.model@ == model@,
            r.base_url@ == base_url@,
    {
        Vibesort {
            api_key: String::from_str(api_key),
            model: String::from_str(model),
            base_url: String::from_str(base_url),
        }
    }

    /// Builds the one request that asks the service to sort the given
    /// integers: the URL under the configured base, the bearer credential,
    /// and the body holding the encoded input.
    pub fn prepare_i64(&self, items: &Vec<i64>) -> (r: PreparedRequest)
        ensures
            prepare_i64_post(r, *self, items@),
    {
        let payload = encode_i64_array(items);
        let mut url = String::from_str(self.base_url.as_str());
        url.append("/chat/completions");
        let mut authorization = String::from_str("Bearer ");
        authorization.append(self.api_key.as_str());
        PreparedRequest {
            url,
            authorization,
            content_type: String::from_str("application/json"),
            body: build_body(self.model.as_str(), &payload),
        }
    }

    /// As `prepare_i64`, for strings.
    pub fn prepare_str(&self, items: &Vec<String>) -> (r: PreparedRequest)
        ensures
            prepare_str_post(r, *self, items@),
    {
        let mut vv: Vec<Vec<char>> = Vec::new();
        let mut k: usize = 0;
        while k < items.len()
            invariant
                k <= items.len(),
                list_view(vv) == strs_view(items@).subrange(0, k as int),
            decreases items.len() - k,
        {
            let ghost prior = list_view(vv);
            vv.push(to_chars(items[k].as_str()));
            proof {
                assert(list_view(vv) =~= prior.push(items@[k as int]@));
                assert(strs_view(items@).subrange(0, k as int + 1) =~= prior.push(
                    items@[k as int]@,
                ));
            }
            k += 1;
        }
        proof {
            assert(strs_view(items@).subrange(0, items@.len() as int) =~= strs_view(items@));
        }
        let payload = encode_str_array(&vv);
        let mut url = String::from_str(self.base_url.as_str());
        url.append("/chat/completions");
        let mut authorization = String::from_str("Bearer ");
        authorization.append(self.api_key.as_str());
        PreparedRequest {
            url,
            authorization,
            content_type: String::from_str("application/json"),
            body: build_body(self.model.as_str(), &payload),
        }
    }

    /// Reads the outcome of the exchange as a sorted array of integers.
    ///
    /// A status outside the 200 range is an `ApiError` carrying status and
    /// body; a body that is not a chat completion object is a `JsonError`;
    /// an empty `choices` is `InvalidResponse`; otherwise the first
    /// choice's content, trimmed of surrounding whitespace, must read as a
    /// JSON array of integers, which is returned exactly as it came — no
    /// reordering, no checks against the input. A content that does not
    /// read so is a `ParseError` whose message ends with that content.
    pub fn handle_response_i64(status: u16, body: &str) -> (r: Result<Vec<i64>, VibesortError>)
        ensures
            handle_i64_post(r, status, body@),
    {
        if status < 200 || status >= 300 {
            return Err(VibesortError::ApiError(build_api_error(status, body)));
        }
        let chars = to_chars(body);
        match parse_reply(&chars) {
            None => Err(
                VibesortError::JsonError(
                    String::from_str("response body is not a chat completion object"),
                ),
            ),
            Some(contents) => {
                if contents.len() == 0 {
                    Err(VibesortError::InvalidResponse)
                } else {
                    let trimmed = trim_chars(&contents[0]);
                    match parse_i64_array(&trimmed) {
                        Some(v) => Ok(v),
                        None => Err(VibesortError::ParseError(build_parse_error(&trimmed))),
                    }
                }
            },
        }
    }

    /// Reads the outcome of the exchange as a sorted array of strings, as
    /// `handle_response_i64` does for integers.
    pub fn handle_response_str(status: u16, body: &str) -> (r: Result<Vec<String>, VibesortError>)
        ensures
            handle_str_post(r, status, body@),
    {
        if status < 200 || status >= 300 {
            return Err(VibesortError::ApiError(build_api_error(status, body)));
        }
        let chars = to_chars(body);
        match parse_reply(&chars) {
            None => Err(
                VibesortError::JsonError(
                    String::from_str("response body is not a chat completion object"),
                ),
            ),
            Some(contents) => {
                if contents.len() == 0 {
                    Err(VibesortError::InvalidResponse)
                } else {
                    let trimmed = trim_chars(&contents[0]);
                    match parse_str_array(&trimmed) {
                        Some(v) => {
                            let mut out: Vec<String> = Vec::new();
                            let mut k: usize = 0;
                            while k < v.len()
                                invariant
                                    k <= v.len(),
                                    strs_view(out@) == list_view(v).subrange(0, k as int),
                                decreases v.len() - k,
                            {
                                let ghost prior = strs_view(out@);
                                out.push(chars_to_string(&v[k]));
                                proof {
                                    assert(strs_view(out@) =~= prior.push(v@[k as int]@));
                                    assert(list_view(v).subrange(0, k as int + 1) =~= prior.push(
                                        v@[k as int]@,
                                    ));
                                }
                                k += 1;
                            }
                            proof {
                                assert(list_view(v).subrange(0, v@.len() as int) =~= list_view(v));
                            }
                            Ok(out)
                        },
                        None => Err(VibesortError::ParseError(build_parse_error(&trimmed))),
                    }
                }
            },
        }
    }
}

} // verus!
