//! The request that asks the terminal to open a file, and the escape sequence
//! that carries it.

use vstd::prelude::*;
use vstd::utf8::*;

use crate::edit::error::EditError;
use crate::hexadecimal::{hex_bytes, hex_of_text, is_hex_digit, lemma_lower_hex, lower_hex};
use crate::json::{json_string, lemma_read_string, quote, read_string};

verus! {

/// The payload of the `EditFile` shell hook.
#[derive(Debug)]
pub struct EditRequest {
    /// Absolute path of the file to edit.
    pub path: String,
    /// Host the file lives on, or empty for the machine running the client.
    pub host: String,
    /// Marker file the client creates once it has accepted the request.
    pub ack_path: String,
    /// Marker file the client creates once the user is done editing.
    pub done_path: String,
    /// Whether the caller is blocked waiting for the edit to finish.
    pub wait: bool,
}

/// What an [`EditRequest`] says.
#[verifier::ext_equal]
pub struct RequestView {
    pub path: Seq<char>,
    pub host: Seq<char>,
    pub ack_path: Seq<char>,
    pub done_path: Seq<char>,
    pub wait: bool,
}

impl View for EditRequest {
    type V = RequestView;

    open spec fn view(&self) -> RequestView {
        RequestView {
            path: self.path@,
            host: self.host@,
            ack_path: self.ack_path@,
            done_path: self.done_path@,
            wait: self.wait,
        }
    }
}

/// `b` in JSON.
pub open spec fn json_bool(b: bool) -> Seq<char> {
    if b {
        "true"@
    } else {
        "false"@
    }
}

/// The request as a JSON object, its members in alphabetical order.
pub open spec fn payload_text(v: RequestView) -> Seq<char> {
    "{\"ack_path\":"@ + (json_string(v.ack_path) + (",\"done_path\":"@ + (json_string(v.done_path)
        + (",\"host\":"@ + (json_string(v.host) + (",\"path\":"@ + (json_string(v.path)
        + (",\"wait\":"@ + (json_bool(v.wait) + "}"@)))))))))
}

/// The JSON object that names the hook and holds the request.
pub open spec fn hook_text(v: RequestView) -> Seq<char> {
    "{\"hook\":\"EditFile\",\"value\":"@ + (payload_text(v) + "}"@)
}

/// The escape sequence for the request: the hook in hexadecimal inside an
/// operating system command that a bell ends.
pub open spec fn sequence_text(v: RequestView) -> Seq<char> {
    "\u{1b}]9278;d;"@ + (lower_hex(encode_utf8(hook_text(v))) + "\u{7}"@)
}

/// What follows `prefix` in `s`, if `s` starts with it.
pub open spec fn strip(s: Seq<char>, prefix: Seq<char>) -> Option<Seq<char>> {
    if s.len() >= prefix.len() && s.take(prefix.len() as int) == prefix {
        Some(s.skip(prefix.len() as int))
    } else {
        None
    }
}

/// The JSON string behind `label` at the start of `s`, and what follows it.
pub open spec fn read_member(s: Seq<char>, label: Seq<char>) -> Option<(Seq<char>, Seq<char>)> {
    match strip(s, label) {
        Some(rest) => read_string(rest),
        None => None,
    }
}

/// The request whose JSON object is at the start of `s`, and what follows it.
pub open spec fn read_payload(s: Seq<char>) -> Option<(RequestView, Seq<char>)> {
    match read_member(s, "{\"ack_path\":"@) {
        Some((ack_path, s)) => match read_member(s, ",\"done_path\":"@) {
            Some((done_path, s)) => match read_member(s, ",\"host\":"@) {
                Some((host, s)) => match read_member(s, ",\"path\":"@) {
                    Some((path, s)) => match strip(s, ",\"wait\":true}"@) {
                        Some(rest) => Some(
                            (RequestView { path, host, ack_path, done_path, wait: true }, rest),
                        ),
                        None => match strip(s, ",\"wait\":false}"@) {
                            Some(rest) => Some(
                                (RequestView { path, host, ack_path, done_path, wait: false }, rest),
                            ),
                            None => None,
                        },
                    },
                    None => None,
                },
                None => None,
            },
            None => None,
        },
        None => None,
    }
}

/// The request in the hook `s`.
pub open spec fn read_hook(s: Seq<char>) -> Option<RequestView> {
    match strip(s, "{\"hook\":\"EditFile\",\"value\":"@) {
        Some(s) => match read_payload(s) {
            Some((v, rest)) => if rest == "}"@ {
                Some(v)
            } else {
                None
            },
            None => None,
        },
        None => None,
    }
}

/// The request that the escape sequence `s` carries.
pub open spec fn read_sequence(s: Seq<char>) -> Option<RequestView> {
    match strip(s, "\u{1b}]9278;d;"@) {
        Some(s) => if s.len() > 0 && s.last() == '\u{7}' {
            read_hook(decode_utf8(hex_bytes(s.drop_last())))
        } else {
            None
        },
        None => None,
    }
}

proof fn lemma_strip(prefix: Seq<char>, rest: Seq<char>)
    ensures
        strip(prefix + rest, prefix) == Some(rest),
{
    assert((prefix + rest).take(prefix.len() as int) == prefix);
    assert((prefix + rest).skip(prefix.len() as int) == rest);
}

proof fn lemma_read_member(label: Seq<char>, content: Seq<char>, rest: Seq<char>)
    ensures
        read_member(label + (json_string(content) + rest), label) == Some((content, rest)),
{
    lemma_strip(label, json_string(content) + rest);
    lemma_read_string(content, rest);
}

proof fn lemma_read_payload(v: RequestView, rest: Seq<char>)
    ensures
        read_payload(payload_text(v) + rest) == Some((v, rest)),
{
    let end = ",\"wait\":"@ + (json_bool(v.wait) + "}"@) + rest;
    let from_path = ",\"path\":"@ + (json_string(v.path) + end);
    let from_host = ",\"host\":"@ + (json_string(v.host) + from_path);
    let from_done = ",\"done_path\":"@ + (json_string(v.done_path) + from_host);
    assert(payload_text(v) + rest == "{\"ack_path\":"@ + (json_string(v.ack_path) + from_done));
    lemma_read_member("{\"ack_path\":"@, v.ack_path, from_done);
    lemma_read_member(",\"done_path\":"@, v.done_path, from_host);
    lemma_read_member(",\"host\":"@, v.host, from_path);
    lemma_read_member(",\"path\":"@, v.path, end);
    reveal_strlit(",\"wait\":");
    reveal_strlit("}");
    reveal_strlit("true");
    reveal_strlit("false");
    reveal_strlit(",\"wait\":true}");
    reveal_strlit(",\"wait\":false}");
    if v.wait {
        assert(end == ",\"wait\":true}"@ + rest);
        lemma_strip(",\"wait\":true}"@, rest);
    } else {
        assert(end == ",\"wait\":false}"@ + rest);
        lemma_strip(",\"wait\":false}"@, rest);
        let wrong = end.take(",\"wait\":true}"@.len() as int);
        assert(wrong != ",\"wait\":true}"@) by {
            if end.len() >= ",\"wait\":true}"@.len() {
                assert(wrong[8] == end[8]);
                assert(end[8] == 'f');
            }
        }
    }
}

/// Whatever a request says, the escape sequence carries it: reading the
/// sequence gives the request back.
pub proof fn law_request_survives_encoding(v: RequestView)
    ensures
        read_sequence(sequence_text(v)) == Some(v),
{
    let hook = hook_text(v);
    let body = lower_hex(encode_utf8(hook)) + "\u{7}"@;
    lemma_strip("\u{1b}]9278;d;"@, body);
    reveal_strlit("\u{7}");
    assert(body.drop_last() == lower_hex(encode_utf8(hook)));
    lemma_lower_hex(encode_utf8(hook));
    encode_utf8_decode_utf8(hook);
    lemma_strip("{\"hook\":\"EditFile\",\"value\":"@, payload_text(v) + "}"@);
    lemma_read_payload(v, "}"@);
}

/// Two requests that differ have different escape sequences.
pub proof fn law_sequence_determines_request(v: RequestView, w: RequestView)
    requires
        sequence_text(v) == sequence_text(w),
    ensures
        v == w,
{
    law_request_survives_encoding(v);
    law_request_survives_encoding(w);
}

/// No request can end its escape sequence early or start another one: behind
/// the introducer come hexadecimal digits only, up to the bell at the end.
pub proof fn law_payload_cannot_leave_the_sequence(v: RequestView)
    ensures
        ({
            let s = sequence_text(v);
            let start = "\u{1b}]9278;d;"@.len() as int;
            &&& start == 9
            &&& s.take(start) == "\u{1b}]9278;d;"@
            &&& forall|i: int| start <= i < s.len() - 1 ==> is_hex_digit(#[trigger] s[i])
            &&& forall|i: int| 0 <= i < s.len() ==> (#[trigger] s[i] == '\u{7}' <==> i == s.len() - 1)
            &&& forall|i: int| 0 <= i < s.len() ==> (#[trigger] s[i] == '\u{1b}' <==> i == 0)
        }),
{
    let s = sequence_text(v);
    let body = lower_hex(encode_utf8(hook_text(v)));
    reveal_strlit("\u{1b}]9278;d;");
    reveal_strlit("\u{7}");
    lemma_lower_hex(encode_utf8(hook_text(v)));
    let start = "\u{1b}]9278;d;"@.len() as int;
    assert(s.take(start) == "\u{1b}]9278;d;"@);
    assert forall|i: int| start <= i < s.len() - 1 implies is_hex_digit(#[trigger] s[i]) by {
        assert(s[i] == body[i - start]);
    }
    assert(s.last() == '\u{7}');
    assert forall|i: int| 0 <= i < start implies s[i] == "\u{1b}]9278;d;"@[i] by {}
}

/// `label`, `value` and `rest` in a row.
fn framed(label: &str, value: &str, rest: &str) -> (r: String)
    ensures
        r@ == label@ + (value@ + rest@),
{
    let tail = value.to_owned().concat(rest);
    label.to_owned().concat(tail.as_str())
}

impl Clone for EditRequest {
    fn clone(&self) -> (r: EditRequest)
        ensures
            r@ == self@,
    {
        EditRequest {
            path: self.path.clone(),
            host: self.host.clone(),
            ack_path: self.ack_path.clone(),
            done_path: self.done_path.clone(),
            wait: self.wait,
        }
    }
}

impl EditRequest {
    /// The request to open the local file at `path`.
    pub fn for_local_file(
        path: String,
        ack_path: String,
        done_path: String,
        wait: bool,
    ) -> (r: EditRequest)
        ensures
            r@ == (RequestView {
                path: path@,
                host: Seq::empty(),
                ack_path: ack_path@,
                done_path: done_path@,
                wait,
            }),
            r.path@ == path@,
            r.host@.len() == 0,
            r.ack_path@ == ack_path@,
            r.done_path@ == done_path@,
            r.wait == wait,
    {
        EditRequest { path, host: String::new(), ack_path, done_path, wait }
    }

    /// The request as a JSON object.
    pub fn to_json(&self) -> (r: Result<String, EditError>)
        ensures
            r is Ok,
            r->Ok_0@ == payload_text(self@),
    {
        match (
            quote(self.ack_path.as_str()),
            quote(self.done_path.as_str()),
            quote(self.host.as_str()),
            quote(self.path.as_str()),
        ) {
            (Ok(ack_path), Ok(done_path), Ok(host), Ok(path)) => {
                let wait = if self.wait {
                    "true"
                } else {
                    "false"
                };
                let json = framed(",\"wait\":", wait, "}");
                let json = framed(",\"path\":", path.as_str(), json.as_str());
                let json = framed(",\"host\":", host.as_str(), json.as_str());
                let json = framed(",\"done_path\":", done_path.as_str(), json.as_str());
                let json = framed("{\"ack_path\":", ack_path.as_str(), json.as_str());
                Ok(json)
            },
            _ => Err(EditError::RequestNotWritten),
        }
    }

    /// The escape sequence that carries this request to the terminal.
    ///
    /// The payload is in hexadecimal, which keeps arbitrary file paths from
    /// corrupting the sequence.
    pub fn escape_sequence(&self) -> (r: Result<String, EditError>)
        ensures
            r is Ok,
            r->Ok_0@ == sequence_text(self@),
    {
        match self.to_json() {
            Ok(payload) => {
                let hook = framed("{\"hook\":\"EditFile\",\"value\":", payload.as_str(), "}");
                let body = hex_of_text(hook.as_str());
                Ok(framed("\u{1b}]9278;d;", body.as_str(), "\u{7}"))
            },
            Err(error) => Err(error),
        }
    }
}

/// The hook holds each member of the request under its own name, and nothing
/// else.
pub proof fn law_members_of_the_hook(v: RequestView)
    ensures
        hook_text(v) == "{\"hook\":\"EditFile\",\"value\":{\"ack_path\":"@ + json_string(v.ack_path)
            + ",\"done_path\":"@ + json_string(v.done_path) + ",\"host\":"@ + json_string(v.host)
            + ",\"path\":"@ + json_string(v.path) + ",\"wait\":"@ + (if v.wait {
            "true"@
        } else {
            "false"@
        }) + "}}"@,
{
    reveal_strlit("{\"hook\":\"EditFile\",\"value\":{\"ack_path\":");
    reveal_strlit("{\"hook\":\"EditFile\",\"value\":");
    reveal_strlit("{\"ack_path\":");
    reveal_strlit("}");
    reveal_strlit("}}");
    assert("{\"hook\":\"EditFile\",\"value\":{\"ack_path\":"@
        == "{\"hook\":\"EditFile\",\"value\":"@ + "{\"ack_path\":"@);
    assert("}}"@ == "}"@ + "}"@);
    let a = json_string(v.ack_path);
    let d = json_string(v.done_path);
    let h = json_string(v.host);
    let p = json_string(v.path);
    let w = json_bool(v.wait);
    lemma_regroup(
        "{\"hook\":\"EditFile\",\"value\":"@,
        "{\"ack_path\":"@,
        a,
        ",\"done_path\":"@,
        d,
        ",\"host\":"@,
        h,
        ",\"path\":"@,
        p,
        ",\"wait\":"@,
        w,
        "}"@,
    );
}

proof fn lemma_regroup(
    s0: Seq<char>,
    s1: Seq<char>,
    s2: Seq<char>,
    s3: Seq<char>,
    s4: Seq<char>,
    s5: Seq<char>,
    s6: Seq<char>,
    s7: Seq<char>,
    s8: Seq<char>,
    s9: Seq<char>,
    s10: Seq<char>,
    e: Seq<char>,
)
    ensures
        s0 + ((s1 + (s2 + (s3 + (s4 + (s5 + (s6 + (s7 + (s8 + (s9 + (s10 + e)))))))))) + e) == (s0
            + s1) + s2 + s3 + s4 + s5 + s6 + s7 + s8 + s9 + s10 + (e + e),
{
    let t9 = s9 + (s10 + e);
    let t7 = s7 + (s8 + t9);
    let t5 = s5 + (s6 + t7);
    let t3 = s3 + (s4 + t5);
    lemma_move_end(s9, s10, e, e);
    lemma_move_end(s7, s8, t9, e);
    lemma_move_end(s5, s6, t7, e);
    lemma_move_end(s3, s4, t5, e);
    lemma_move_end(s1, s2, t3, e);
    let u2 = s0 + s1 + s2;
    let u4 = u2 + s3 + s4;
    let u6 = u4 + s5 + s6;
    let u8 = u6 + s7 + s8;
    lemma_move_start(s0, s1, s2, t3 + e);
    lemma_move_start(u2, s3, s4, t5 + e);
    lemma_move_start(u4, s5, s6, t7 + e);
    lemma_move_start(u6, s7, s8, t9 + e);
    lemma_move_start(u8, s9, s10, e + e);
}

proof fn lemma_move_end(a: Seq<char>, b: Seq<char>, rest: Seq<char>, end: Seq<char>)
    ensures
        (a + (b + rest)) + end == (a + b) + (rest + end),
{
    assert((a + (b + rest)) + end =~= (a + b) + (rest + end));
}

proof fn lemma_move_start(start: Seq<char>, a: Seq<char>, b: Seq<char>, rest: Seq<char>)
    ensures
        start + ((a + b) + rest) == start + a + b + rest,
{
    assert(start + ((a + b) + rest) =~= start + a + b + rest);
}

/// The escape sequence is the hook in hexadecimal between the introducer of the
/// terminal's own operating system command and a bell.
pub proof fn law_frame_of_the_sequence(v: RequestView)
    ensures
        sequence_text(v) == "\u{1b}]9278;d;"@ + lower_hex(encode_utf8(hook_text(v))) + "\u{7}"@,
        hook_text(v) == "{\"hook\":\"EditFile\",\"value\":"@ + payload_text(v) + "}"@,
{
    let body = lower_hex(encode_utf8(hook_text(v)));
    assert("\u{1b}]9278;d;"@ + (body + "\u{7}"@) == "\u{1b}]9278;d;"@ + body + "\u{7}"@);
    assert("{\"hook\":\"EditFile\",\"value\":"@ + (payload_text(v) + "}"@)
        == "{\"hook\":\"EditFile\",\"value\":"@ + payload_text(v) + "}"@);
}

/// What a request says is what its members hold.
pub proof fn law_what_a_request_says(request: EditRequest)
    ensures
        request@.path == request.path@,
        request@.host == request.host@,
        request@.ack_path == request.ack_path@,
        request@.done_path == request.done_path@,
        request@.wait == request.wait,
{
}

} // verus!
