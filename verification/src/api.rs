//! The asciinema server API: the request and response payloads, and the
//! messages made of the server's error replies.
use vstd::prelude::*;
use crate::text::{append_chars, append_str, chars_of, spec_trim, string_from_chars, trim};

use crate::text::str_eq;
use crate::urls::{set_url_path, url_parse_result, url_with_path};

verus! {

/// The server's reply to an upload.
#[derive(Debug)]
pub struct RecordingResponse {
    pub url: String,
    pub message: Option<String>,
}

/// The server's description of a live stream.
#[derive(Debug)]
pub struct StreamResponse {
    pub id: u64,
    pub ws_producer_url: String,
    pub url: String,
}

/// Who may see a recording or a stream.
#[derive(Debug, Clone, Copy, PartialEq, Eq, Structural)]
pub enum Visibility {
    Public,
    Unlisted,
    Private,
}

/// The recording attributes sent with an upload; `None` leaves one unset.
pub struct RecordingChangeset {
    pub title: Option<Option<String>>,
    pub description: Option<Option<String>>,
    pub visibility: Option<Visibility>,
    pub audio_url: Option<Option<String>>,
}

/// The stream attributes sent when a stream is created or updated; `None`
/// leaves one unchanged.
pub struct StreamChangeset {
    pub live: Option<bool>,
    pub title: Option<Option<String>>,
    pub description: Option<Option<String>>,
    pub visibility: Option<Visibility>,
    pub audio_url: Option<Option<String>>,
    pub term_type: Option<Option<String>>,
    pub term_version: Option<Option<String>>,
    pub shell: Option<Option<String>>,
    pub env: Option<Option<Vec<(String, String)>>>,
}

/// The lowercase name of a visibility, as the server expects it.
pub open spec fn visibility_name(v: Visibility) -> Seq<char> {
    match v {
        Visibility::Public => "public"@,
        Visibility::Unlisted => "unlisted"@,
        Visibility::Private => "private"@,
    }
}

/// The lowercase name of a visibility.
pub fn visibility_str(v: Visibility) -> (s: &'static str)
    ensures
        s@ == visibility_name(v),
{
    match v {
        Visibility::Public => "public",
        Visibility::Unlisted => "unlisted",
        Visibility::Private => "private",
    }
}

/// An optional text field of a form: present when the value is set and not
/// null.
pub open spec fn opt_field(name: Seq<char>, v: Option<Option<String>>) -> Seq<(Seq<char>, Seq<char>)> {
    match v {
        Some(Some(s)) => seq![(name, s@)],
        _ => seq![],
    }
}

/// The text fields of an upload form, in this order: title, description,
/// visibility and audio URL, each when it is set.
pub open spec fn spec_recording_fields(c: RecordingChangeset) -> Seq<(Seq<char>, Seq<char>)> {
    opt_field("title"@, c.title) + opt_field("description"@, c.description) + match c.visibility {
        Some(v) => seq![("visibility"@, visibility_name(v))],
        None => seq![],
    } + opt_field("audio_url"@, c.audio_url)
}

/// The view of form fields.
pub open spec fn fields_view(f: Seq<(String, String)>) -> Seq<(Seq<char>, Seq<char>)> {
    f.map_values(|p: (String, String)| (p.0@, p.1@))
}

fn push_opt_field(fields: &mut Vec<(String, String)>, name: &str, v: Option<Option<String>>)
    ensures
        fields_view(final(fields)@) == fields_view(old(fields)@) + opt_field(name@, v),
{
    let ghost before = fields@;
    match v {
        Some(Some(s)) => {
            let n = name.to_owned();
            fields.push((n, s));
        },
        _ => {},
    }
    assert(fields_view(fields@) =~= fields_view(before) + opt_field(name@, v));
}

/// The text fields that an upload form carries for a changeset.
pub fn add_recording_changeset_fields(changeset: RecordingChangeset) -> (fields: Vec<(String, String)>)
    ensures
        fields_view(fields@) == spec_recording_fields(changeset),
{
    let ghost c = changeset;
    let mut fields: Vec<(String, String)> = Vec::new();
    assert(fields_view(fields@) =~= Seq::<(Seq<char>, Seq<char>)>::empty());
    push_opt_field(&mut fields, "title", changeset.title);
    push_opt_field(&mut fields, "description", changeset.description);
    let ghost before = fields@;
    match changeset.visibility {
        Some(v) => {
            let name = "visibility".to_owned();
            let value = visibility_str(v).to_owned();
            fields.push((name, value));
        },
        None => {},
    }
    assert(fields_view(fields@) =~= fields_view(before) + match c.visibility {
        Some(v) => seq![("visibility"@, visibility_name(v))],
        None => seq![],
    });
    push_opt_field(&mut fields, "audio_url", changeset.audio_url);
    assert(fields_view(fields@) =~= spec_recording_fields(c));
    fields
}

/// One detail of a validation error.
pub struct ErrorDetail {
    pub field: Option<String>,
    pub message: String,
}

/// An error reply of the server. `details` is `None` unless the reply has
/// an array of details; an element of it that is not a detail object is
/// `None`.
pub struct ErrorResponse {
    pub error_type: Option<String>,
    pub message: Option<String>,
    pub details: Option<Vec<Option<ErrorDetail>>>,
}

/// Whether a detail is shown: it is a detail object with a message that is
/// not blank.
pub open spec fn shown(d: Option<ErrorDetail>) -> bool {
    d matches Some(x) && spec_trim(x.message@).len() > 0
}

/// The line of a shown detail: `field: message`, or the message alone when
/// the field is missing, blank or `.`; the field is trimmed.
pub open spec fn detail_line(d: ErrorDetail) -> Seq<char> {
    let f = match d.field {
        Some(f) => Some(spec_trim(f@)),
        None => None,
    };
    match f {
        Some(f) => if f.len() > 0 && f != seq!['.'] {
            seq!['\n', ' ', ' '] + f + seq![':', ' '] + d.message@
        } else {
            seq!['\n', ' ', ' '] + d.message@
        },
        None => seq!['\n', ' ', ' '] + d.message@,
    }
}

/// The lines of the shown details, in order.
pub open spec fn detail_lines(ds: Seq<Option<ErrorDetail>>) -> Seq<char>
    decreases ds.len(),
{
    if ds.len() == 0 {
        seq![]
    } else {
        detail_lines(ds.drop_last()) + if shown(ds.last()) {
            detail_line(ds.last()->0)
        } else {
            seq![]
        }
    }
}

/// Whether some detail is shown.
pub open spec fn any_shown(ds: Seq<Option<ErrorDetail>>) -> bool {
    exists|i: int| 0 <= i < ds.len() && shown(#[trigger] ds[i])
}

/// The message of an error reply: nothing when the message is missing or
/// blank; a validation failure lists its shown details after a colon, one
/// per line.
pub open spec fn spec_format_error(r: ErrorResponse) -> Option<Seq<char>> {
    match r.message {
        None => None,
        Some(m) => if spec_trim(m@).len() == 0 {
            None
        } else if r.error_type matches Some(t) && t@ == "validation_failed"@ {
            match r.details {
                Some(ds) => if any_shown(ds@) {
                    Some(
                        (if m@.len() > 0 && m@.last() == ':' {
                            m@
                        } else {
                            m@.push(':')
                        }) + detail_lines(ds@),
                    )
                } else {
                    Some(m@)
                },
                None => Some(m@),
            }
        } else {
            Some(m@)
        },
    }
}

/// Whether a string is blank.
fn is_blank(s: &str) -> (r: bool)
    ensures
        r == (spec_trim(s@).len() == 0),
{
    let cs = chars_of(s);
    let t = trim(cs.as_slice());
    t.len() == 0
}

/// The message of an error reply.
pub fn format_error_response(response: ErrorResponse) -> (r: Option<String>)
    ensures
        match spec_format_error(response) {
            Some(m) => r matches Some(s) && s@ == m,
            None => r is None,
        },
{
    let ghost resp = response;
    let message = match response.message {
        Some(m) => m,
        None => {
            return None;
        },
    };
    if is_blank(message.as_str()) {
        return None;
    }
    let validation = match &response.error_type {
        Some(t) => str_eq(t.as_str(), "validation_failed"),
        None => false,
    };
    if !validation {
        return Some(message);
    }
    let details = match response.details {
        Some(ds) => ds,
        None => {
            return Some(message);
        },
    };
    let mut out = chars_of(message.as_str());
    let mut has_details = false;
    let mut lines: Vec<char> = Vec::new();
    let mut i: usize = 0;
    while i < details.len()
        invariant
            i <= details@.len(),
            lines@ == detail_lines(details@.take(i as int)),
            has_details == any_shown(details@.take(i as int)),
        decreases details@.len() - i,
    {
        assert(details@.take(i + 1).drop_last() =~= details@.take(i as int));
        let ghost before = details@.take(i as int);
        match &details[i] {
            Some(d) => {
                if !is_blank(d.message.as_str()) {
                    has_details = true;
                    lines.push('\n');
                    lines.push(' ');
                    lines.push(' ');
                    let field = match &d.field {
                        Some(f) => {
                            let fc = chars_of(f.as_str());
                            Some(trim(fc.as_slice()))
                        },
                        None => None,
                    };
                    match field {
                        Some(f) => {
                            if f.len() > 0 && !(f.len() == 1 && f[0] == '.') {
                                append_chars(&mut lines, f.as_slice());
                                lines.push(':');
                                lines.push(' ');
                            } else {
                                assert(f@ == seq!['.'] || f@.len() == 0) by {
                                    if f@.len() == 1 && f@[0] == '.' {
                                        assert(f@ =~= seq!['.']);
                                    }
                                }
                            }
                        },
                        None => {},
                    }
                    append_str(&mut lines, d.message.as_str());
                }
            },
            None => {},
        }
        i = i + 1;
        assert(lines@ =~= detail_lines(details@.take(i as int)));
        assert(has_details == any_shown(details@.take(i as int))) by {
            if any_shown(details@.take(i as int)) && !any_shown(before) {
                let j = choose|j: int| 0 <= j < i && shown(#[trigger] details@.take(i as int)[j]);
                assert(j == i - 1);
            }
            if any_shown(before) {
                let j = choose|j: int| 0 <= j < i - 1 && shown(#[trigger] before[j]);
                assert(details@.take(i as int)[j] == before[j]);
            }
        }
    }
    assert(details@.take(i as int) =~= details@);
    if has_details {
        if !(out.len() > 0 && out[out.len() - 1] == ':') {
            out.push(':');
        }
        append_chars(&mut out, lines.as_slice());
    }
    Some(string_from_chars(out.as_slice()))
}

/// Advice added to some errors: how to link the CLI to an account, or how
/// to get past the upload limit.
pub open spec fn guidance(error_type: Option<String>, host: Seq<char>) -> Option<Seq<char>> {
    match error_type {
        Some(t) => if t@ == "account_required"@ {
            Some("Run `asciinema auth` to link this CLI to your "@ + host + " account."@)
        } else if t@ == "upload_limit_reached"@ {
            Some("Run `asciinema auth` and follow the link to upload more."@)
        } else {
            None
        },
        None => None,
    }
}

/// The message shown for an error reply of the server at `server_hostname`:
/// its formatted message, followed by advice after a blank line for the
/// errors that have some.
pub fn render_error_response(response: ErrorResponse, server_hostname: &str) -> (r: Option<String>)
    ensures
        match spec_format_error(response) {
            None => r is None,
            Some(m) => r matches Some(s) && s@ == match guidance(response.error_type, server_hostname@) {
                Some(g) => m + seq!['\n', '\n'] + g,
                None => m,
            },
        },
{
    let ghost resp = response;
    let kind: u8 = match &response.error_type {
        Some(t) => if str_eq(t.as_str(), "account_required") {
            1
        } else if str_eq(t.as_str(), "upload_limit_reached") {
            2
        } else {
            0
        },
        None => 0,
    };
    let message = match format_error_response(response) {
        Some(m) => m,
        None => {
            return None;
        },
    };
    let mut out = chars_of(message.as_str());
    if kind == 1 {
        append_str(&mut out, "\n\nRun `asciinema auth` to link this CLI to your ");
        append_str(&mut out, server_hostname);
        append_str(&mut out, " account.");
        proof {
            reveal_strlit("\n\nRun `asciinema auth` to link this CLI to your ");
            reveal_strlit("Run `asciinema auth` to link this CLI to your ");
            assert("\n\nRun `asciinema auth` to link this CLI to your "@ =~= seq!['\n', '\n']
                + "Run `asciinema auth` to link this CLI to your "@);
        }
    } else if kind == 2 {
        append_str(&mut out, "\n\nRun `asciinema auth` and follow the link to upload more.");
        proof {
            reveal_strlit("\n\nRun `asciinema auth` and follow the link to upload more.");
            reveal_strlit("Run `asciinema auth` and follow the link to upload more.");
            assert("\n\nRun `asciinema auth` and follow the link to upload more."@ =~= seq!['\n', '\n']
                + "Run `asciinema auth` and follow the link to upload more."@);
        }
    }
    let r = string_from_chars(out.as_slice());
    assert(match guidance(resp.error_type, server_hostname@) {
        Some(g) => r@ =~= message@ + seq!['\n', '\n'] + g,
        None => r@ =~= message@,
    });
    Some(r)
}

/// What a server reply leads to.
#[derive(Debug, Clone, PartialEq, Eq)]
pub enum StatusOutcome {
    /// The request succeeded.
    Success,
    /// The request failed with this message.
    Message(String),
    /// The request failed; the HTTP status error is reported.
    StatusError,
}

/// What a reply leads to, given whether its status is a success, the
/// message rendered from its body (see `render_error_response`), and the
/// message for servers that send no such body: a failure is reported with
/// the rendered message, else the fallback, else the status error.
pub fn handle_response_status(
    success: bool,
    rendered: Option<String>,
    legacy_fallback: Option<String>,
) -> (r: StatusOutcome)
    ensures
        success ==> r == StatusOutcome::Success,
        !success && rendered is Some ==> r == StatusOutcome::Message(rendered->0),
        !success && rendered is None && legacy_fallback is Some ==> r == StatusOutcome::Message(
            legacy_fallback->0,
        ),
        !success && rendered is None && legacy_fallback is None ==> r
            == StatusOutcome::StatusError,
{
    if success {
        return StatusOutcome::Success;
    }
    match rendered {
        Some(m) => StatusOutcome::Message(m),
        None => match legacy_fallback {
            Some(m) => StatusOutcome::Message(m),
            None => StatusOutcome::StatusError,
        },
    }
}

/// The message for an upload refused by a server that sends no error body:
/// status 413 means the recording is too large.
pub fn upload_legacy_fallback(status: u16) -> (r: Option<String>)
    ensures
        status == 413 ==> (r matches Some(m) && m@
            == "The recording exceeds the server-configured size limit"@),
        status != 413 ==> r is None,
{
    if status == 413 {
        Some("The recording exceeds the server-configured size limit".to_string())
    } else {
        None
    }
}

/// The message for a stream request refused by a server that sends no
/// error body: 404 and 422 mean the server does not support streaming.
pub fn stream_legacy_fallback(status: u16, server_hostname: &str) -> (r: Option<String>)
    ensures
        (status == 404 || status == 422) ==> (r matches Some(m) && m@ == server_hostname@
            + " doesn't support streaming"@),
        !(status == 404 || status == 422) ==> r is None,
{
    if status == 404 || status == 422 {
        let mut out: Vec<char> = Vec::new();
        append_str(&mut out, server_hostname);
        append_str(&mut out, " doesn't support streaming");
        Some(string_from_chars(out.as_slice()))
    } else {
        None
    }
}

} // verus!

verus! {

/// The path of the page where an installation is connected to an account.
pub open spec fn auth_path(install_id: Seq<char>) -> Seq<char> {
    "connect/"@ + install_id
}

/// The address where the user connects this installation (`install_id`) to
/// an account on the server at `server_url`: the server's URL with the path
/// `connect/` and the id; `None` when the server URL does not parse.
pub fn get_auth_url(server_url: &str, install_id: &str) -> (r: Option<String>)
    ensures
        match r {
            Some(u) => url_with_path(server_url@, auth_path(install_id@)) == Some(u@),
            None => url_with_path(server_url@, auth_path(install_id@)) is None,
        },
        r is Some <==> url_parse_result(server_url@) is Ok,
{
    let mut path: Vec<char> = Vec::new();
    append_str(&mut path, "connect/");
    append_str(&mut path, install_id);
    let path = string_from_chars(path.as_slice());
    proof {
        reveal_strlit("connect/");
    }
    set_url_path(server_url, path.as_str())
}

} // verus!
