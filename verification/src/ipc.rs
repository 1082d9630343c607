//! The messages exchanged between the daemon and its clients, their
//! abstract views, and the line codec: each message becomes one
//! newline-terminated JSON line, and decoding an encoded message gives
//! the message back (proved below). The text primitives the codec is
//! built from live in `wire`.

use crate::text::{push_char, push_str, str_chars, str_eq};
use crate::wire::{
    dec_digits, exec_trim, is_digit, lemma_dec_digits_no_newline, lemma_escape_clean,
    lemma_no_newline_concat, lemma_parse_lit_prefix, lemma_parse_quoted_round,
    lemma_parse_string_round, lemma_parse_u8_round, lemma_quote_no_newline,
    lemma_str_list_no_newline, lemma_str_list_round, lemma_trim_line, lemma_u8_list_no_newline,
    lemma_u8_list_round, needs_escape, no_newline, p_bool, p_lit, p_str_list, p_string, p_u8,
    p_u8_list, parse_bool, parse_lit, parse_quoted, parse_str_list, parse_string_body, parse_u8,
    parse_u8_list, push_dec_u8, push_escaped, quote, spec_trim, str_list, str_list_body, u8_list,
    u8_list_body,
};
use vstd::prelude::*;

verus! {

/// A message from the daemon to a popup or control client.
#[derive(Debug, Clone, PartialEq)]
pub enum DaemonMsg {
    /// Show the accent popup for the given base character. `labels`
    /// are the 1-indexed digit labels, one per accent.
    ShowPopup { base: String, accents: Vec<String>, labels: Vec<u8> },
    /// Hide the popup.
    HidePopup,
    /// Status reply.
    Status { enabled: bool, locale: String, version: String },
    /// Acknowledgement of a command.
    Ack { ok: bool, message: String },
}

/// A message from a client to the daemon.
#[derive(Debug, Clone, PartialEq)]
pub enum ClientMsg {
    /// Select an accent variant (1-indexed).
    Select { index: u8 },
    /// Dismiss the popup.
    Dismiss,
    /// Toggle the enabled state.
    Toggle,
    /// Enable accent detection.
    Enable,
    /// Disable accent detection.
    Disable,
    /// Switch to another locale.
    SetLocale { locale: String },
    /// Ask for the current status.
    GetStatus,
    /// Announce this connection as a popup, to receive popup messages.
    RegisterPopup,
}

/// The abstract value of a `DaemonMsg`, over character sequences.
pub enum DaemonMsgV {
    ShowPopup { base: Seq<char>, accents: Seq<Seq<char>>, labels: Seq<u8> },
    HidePopup,
    Status { enabled: bool, locale: Seq<char>, version: Seq<char> },
    Ack { ok: bool, message: Seq<char> },
}

/// The abstract value of a `ClientMsg`, over character sequences.
pub enum ClientMsgV {
    Select { index: u8 },
    Dismiss,
    Toggle,
    Enable,
    Disable,
    SetLocale { locale: Seq<char> },
    GetStatus,
    RegisterPopup,
}

impl DeepView for DaemonMsg {
    type V = DaemonMsgV;

    open spec fn deep_view(&self) -> DaemonMsgV {
        match self {
            DaemonMsg::ShowPopup { base, accents, labels } => DaemonMsgV::ShowPopup {
                base: base@,
                accents: accents.deep_view(),
                labels: labels@,
            },
            DaemonMsg::HidePopup => DaemonMsgV::HidePopup,
            DaemonMsg::Status { enabled, locale, version } => DaemonMsgV::Status {
                enabled: *enabled,
                locale: locale@,
                version: version@,
            },
            DaemonMsg::Ack { ok, message } => DaemonMsgV::Ack { ok: *ok, message: message@ },
        }
    }
}

impl DeepView for ClientMsg {
    type V = ClientMsgV;

    open spec fn deep_view(&self) -> ClientMsgV {
        match self {
            ClientMsg::Select { index } => ClientMsgV::Select { index: *index },
            ClientMsg::Dismiss => ClientMsgV::Dismiss,
            ClientMsg::Toggle => ClientMsgV::Toggle,
            ClientMsg::Enable => ClientMsgV::Enable,
            ClientMsg::Disable => ClientMsgV::Disable,
            ClientMsg::SetLocale { locale } => ClientMsgV::SetLocale { locale: locale@ },
            ClientMsg::GetStatus => ClientMsgV::GetStatus,
            ClientMsg::RegisterPopup => ClientMsgV::RegisterPopup,
        }
    }
}


/// `true` or `false` on the wire.
pub open spec fn bool_lit(b: bool) -> Seq<char> {
    if b {
        "true"@
    } else {
        "false"@
    }
}

/// The type tag of a daemon message.
pub open spec fn daemon_tag(m: DaemonMsgV) -> Seq<char> {
    match m {
        DaemonMsgV::ShowPopup { .. } => "show_popup"@,
        DaemonMsgV::HidePopup => "hide_popup"@,
        DaemonMsgV::Status { .. } => "status"@,
        DaemonMsgV::Ack { .. } => "ack"@,
    }
}

/// What follows the tag's closing quote for a daemon message, through
/// the closing brace.
pub open spec fn daemon_fields(m: DaemonMsgV) -> Seq<char> {
    match m {
        DaemonMsgV::ShowPopup { base, accents, labels } => ",\"base\":"@ + quote(base)
            + ",\"accents\":"@ + str_list(accents) + ",\"labels\":"@ + u8_list(labels) + "}"@,
        DaemonMsgV::HidePopup => "}"@,
        DaemonMsgV::Status { enabled, locale, version } => ",\"enabled\":"@ + bool_lit(enabled)
            + ",\"locale\":"@ + quote(locale) + ",\"version\":"@ + quote(version) + "}"@,
        DaemonMsgV::Ack { ok, message } => ",\"ok\":"@ + bool_lit(ok) + ",\"message\":"@ + quote(
            message,
        ) + "}"@,
    }
}

/// The wire line for a daemon message: one JSON object with a leading
/// `type` tag, ending in a newline.
pub open spec fn spec_encode_daemon(m: DaemonMsgV) -> Seq<char> {
    "{\"type\":\""@ + daemon_tag(m) + "\""@ + daemon_fields(m) + "\n"@
}

/// The type tag of a client message.
pub open spec fn client_tag(m: ClientMsgV) -> Seq<char> {
    match m {
        ClientMsgV::Select { .. } => "select"@,
        ClientMsgV::Dismiss => "dismiss"@,
        ClientMsgV::Toggle => "toggle"@,
        ClientMsgV::Enable => "enable"@,
        ClientMsgV::Disable => "disable"@,
        ClientMsgV::SetLocale { .. } => "set_locale"@,
        ClientMsgV::GetStatus => "get_status"@,
        ClientMsgV::RegisterPopup => "register_popup"@,
    }
}

/// What follows the tag's closing quote for a client message.
pub open spec fn client_fields(m: ClientMsgV) -> Seq<char> {
    match m {
        ClientMsgV::Select { index } => ",\"index\":"@ + dec_digits(index as nat) + "}"@,
        ClientMsgV::SetLocale { locale } => ",\"locale\":"@ + quote(locale) + "}"@,
        _ => "}"@,
    }
}

/// The wire line for a client message.
pub open spec fn spec_encode_client(m: ClientMsgV) -> Seq<char> {
    "{\"type\":\""@ + client_tag(m) + "\""@ + client_fields(m) + "\n"@
}

/// Decode the fields of a `show_popup` line.
pub open spec fn dec_show_popup(s: Seq<char>) -> Option<DaemonMsgV> {
    match parse_lit(s, ",\"base\":"@) {
        None => None,
        Some(r1) => match parse_quoted(r1) {
            None => None,
            Some(pb) => match parse_lit(pb.1, ",\"accents\":"@) {
                None => None,
                Some(r2) => match parse_str_list(r2) {
                    None => None,
                    Some(pa) => match parse_lit(pa.1, ",\"labels\":"@) {
                        None => None,
                        Some(r3) => match parse_u8_list(r3) {
                            None => None,
                            Some(pl) => if pl.1 == "}"@ {
                                Some(
                                    DaemonMsgV::ShowPopup {
                                        base: pb.0,
                                        accents: pa.0,
                                        labels: pl.0,
                                    },
                                )
                            } else {
                                None
                            },
                        },
                    },
                },
            },
        },
    }
}

/// Decode the fields of a `status` line.
pub open spec fn dec_status(s: Seq<char>) -> Option<DaemonMsgV> {
    match parse_lit(s, ",\"enabled\":"@) {
        None => None,
        Some(r1) => match parse_bool(r1) {
            None => None,
            Some(pe) => match parse_lit(pe.1, ",\"locale\":"@) {
                None => None,
                Some(r2) => match parse_quoted(r2) {
                    None => None,
                    Some(pl) => match parse_lit(pl.1, ",\"version\":"@) {
                        None => None,
                        Some(r3) => match parse_quoted(r3) {
                            None => None,
                            Some(pv) => if pv.1 == "}"@ {
                                Some(
                                    DaemonMsgV::Status {
                                        enabled: pe.0,
                                        locale: pl.0,
                                        version: pv.0,
                                    },
                                )
                            } else {
                                None
                            },
                        },
                    },
                },
            },
        },
    }
}

/// Decode the fields of an `ack` line.
pub open spec fn dec_ack(s: Seq<char>) -> Option<DaemonMsgV> {
    match parse_lit(s, ",\"ok\":"@) {
        None => None,
        Some(r1) => match parse_bool(r1) {
            None => None,
            Some(po) => match parse_lit(po.1, ",\"message\":"@) {
                None => None,
                Some(r2) => match parse_quoted(r2) {
                    None => None,
                    Some(pm) => if pm.1 == "}"@ {
                        Some(DaemonMsgV::Ack { ok: po.0, message: pm.0 })
                    } else {
                        None
                    },
                },
            },
        },
    }
}

/// Decode one line as a daemon message: surrounding whitespace is
/// ignored, and anything else that is not a well-formed message of a
/// known tag decodes to nothing.
pub open spec fn spec_decode_daemon(line: Seq<char>) -> Option<DaemonMsgV> {
    let t = spec_trim(line);
    match parse_lit(t, "{\"type\":\""@) {
        None => None,
        Some(r0) => match parse_string_body(r0) {
            None => None,
            Some(pt) => {
                let tag = pt.0;
                let r1 = pt.1;
                if tag == "show_popup"@ {
                    dec_show_popup(r1)
                } else if tag == "hide_popup"@ {
                    if r1 == "}"@ {
                        Some(DaemonMsgV::HidePopup)
                    } else {
                        None
                    }
                } else if tag == "status"@ {
                    dec_status(r1)
                } else if tag == "ack"@ {
                    dec_ack(r1)
                } else {
                    None
                }
            },
        },
    }
}

/// Decode the fields of a `select` line.
pub open spec fn dec_select(s: Seq<char>) -> Option<ClientMsgV> {
    match parse_lit(s, ",\"index\":"@) {
        None => None,
        Some(r1) => match parse_u8(r1) {
            None => None,
            Some(pi) => if pi.1 == "}"@ {
                Some(ClientMsgV::Select { index: pi.0 })
            } else {
                None
            },
        },
    }
}

/// Decode the fields of a `set_locale` line.
pub open spec fn dec_set_locale(s: Seq<char>) -> Option<ClientMsgV> {
    match parse_lit(s, ",\"locale\":"@) {
        None => None,
        Some(r1) => match parse_quoted(r1) {
            None => None,
            Some(pl) => if pl.1 == "}"@ {
                Some(ClientMsgV::SetLocale { locale: pl.0 })
            } else {
                None
            },
        },
    }
}

/// Decode one line as a client message.
pub open spec fn spec_decode_client(line: Seq<char>) -> Option<ClientMsgV> {
    let t = spec_trim(line);
    match parse_lit(t, "{\"type\":\""@) {
        None => None,
        Some(r0) => match parse_string_body(r0) {
            None => None,
            Some(pt) => {
                let tag = pt.0;
                let r1 = pt.1;
                if tag == "select"@ {
                    dec_select(r1)
                } else if tag == "dismiss"@ {
                    if r1 == "}"@ {
                        Some(ClientMsgV::Dismiss)
                    } else {
                        None
                    }
                } else if tag == "toggle"@ {
                    if r1 == "}"@ {
                        Some(ClientMsgV::Toggle)
                    } else {
                        None
                    }
                } else if tag == "enable"@ {
                    if r1 == "}"@ {
                        Some(ClientMsgV::Enable)
                    } else {
                        None
                    }
                } else if tag == "disable"@ {
                    if r1 == "}"@ {
                        Some(ClientMsgV::Disable)
                    } else {
                        None
                    }
                } else if tag == "set_locale"@ {
                    dec_set_locale(r1)
                } else if tag == "get_status"@ {
                    if r1 == "}"@ {
                        Some(ClientMsgV::GetStatus)
                    } else {
                        None
                    }
                } else if tag == "register_popup"@ {
                    if r1 == "}"@ {
                        Some(ClientMsgV::RegisterPopup)
                    } else {
                        None
                    }
                } else {
                    None
                }
            },
        },
    }
}

fn push_quoted(out: &mut String, s: &str)
    ensures
        final(out)@ == old(out)@ + quote(s@),
{
    push_char(out, '"');
    let cs = str_chars(s);
    push_escaped(out, &cs);
    push_char(out, '"');
    proof {
        assert(out@ =~= old(out)@ + quote(s@));
    }
}

fn push_string_list(out: &mut String, xs: &Vec<String>)
    ensures
        final(out)@ == old(out)@ + str_list(xs.deep_view()),
{
    push_char(out, '[');
    let n = xs.len();
    let mut i: usize = 0;
    proof {
        assert(out@ =~= old(out)@ + seq!['['] + str_list_body(xs.deep_view().take(0)));
    }
    while i < n
        invariant
            n == xs@.len(),
            i <= n,
            out@ == old(out)@ + seq!['['] + str_list_body(xs.deep_view().take(i as int)),
        decreases n - i,
    {
        if i > 0 {
            push_char(out, ',');
        }
        push_quoted(out, xs[i].as_str());
        i = i + 1;
        proof {
            assert(xs.deep_view().take(i as int).drop_last() =~= xs.deep_view().take(i as int - 1));
            assert(xs.deep_view().take(i as int).last() == xs@[i - 1]@);
            assert(out@ =~= old(out)@ + seq!['['] + str_list_body(xs.deep_view().take(i as int)));
        }
    }
    push_char(out, ']');
    proof {
        assert(xs.deep_view().take(n as int) =~= xs.deep_view());
        assert(out@ =~= old(out)@ + str_list(xs.deep_view()));
    }
}

fn push_number_list(out: &mut String, xs: &Vec<u8>)
    ensures
        final(out)@ == old(out)@ + u8_list(xs@),
{
    push_char(out, '[');
    let n = xs.len();
    let mut i: usize = 0;
    proof {
        assert(out@ =~= old(out)@ + seq!['['] + u8_list_body(xs@.take(0)));
    }
    while i < n
        invariant
            n == xs@.len(),
            i <= n,
            out@ == old(out)@ + seq!['['] + u8_list_body(xs@.take(i as int)),
        decreases n - i,
    {
        if i > 0 {
            push_char(out, ',');
        }
        push_dec_u8(out, xs[i]);
        i = i + 1;
        proof {
            assert(xs@.take(i as int).drop_last() =~= xs@.take(i as int - 1));
            assert(xs@.take(i as int).last() == xs@[i - 1]);
            assert(out@ =~= old(out)@ + seq!['['] + u8_list_body(xs@.take(i as int)));
        }
    }
    push_char(out, ']');
    proof {
        assert(xs@.take(n as int) =~= xs@);
        assert(out@ =~= old(out)@ + u8_list(xs@));
    }
}

/// Encode a daemon message as one newline-terminated JSON line.
pub fn encode_daemon(msg: &DaemonMsg) -> (r: String)
    ensures
        r@ == spec_encode_daemon(msg.deep_view()),
{
    let mut out = String::new();
    match msg {
        DaemonMsg::ShowPopup { base, accents, labels } => {
            push_str(&mut out, "{\"type\":\"show_popup\",\"base\":");
            push_quoted(&mut out, base.as_str());
            push_str(&mut out, ",\"accents\":");
            push_string_list(&mut out, accents);
            push_str(&mut out, ",\"labels\":");
            push_number_list(&mut out, labels);
            push_str(&mut out, "}\n");
            proof {
                reveal_strlit("{\"type\":\"show_popup\",\"base\":");
                reveal_strlit("{\"type\":\"");
                reveal_strlit("show_popup");
                reveal_strlit("\"");
                reveal_strlit(",\"base\":");
                reveal_strlit(",\"accents\":");
                reveal_strlit(",\"labels\":");
                reveal_strlit("}");
                reveal_strlit("\n");
                reveal_strlit("}\n");
                assert(out@ =~= spec_encode_daemon(msg.deep_view()));
            }
        },
        DaemonMsg::HidePopup => {
            push_str(&mut out, "{\"type\":\"hide_popup\"}\n");
            proof {
                reveal_strlit("{\"type\":\"hide_popup\"}\n");
                reveal_strlit("{\"type\":\"");
                reveal_strlit("hide_popup");
                reveal_strlit("\"");
                reveal_strlit("}");
                reveal_strlit("\n");
                assert(out@ =~= spec_encode_daemon(msg.deep_view()));
            }
        },
        DaemonMsg::Status { enabled, locale, version } => {
            push_str(&mut out, "{\"type\":\"status\",\"enabled\":");
            if *enabled {
                push_str(&mut out, "true");
            } else {
                push_str(&mut out, "false");
            }
            push_str(&mut out, ",\"locale\":");
            push_quoted(&mut out, locale.as_str());
            push_str(&mut out, ",\"version\":");
            push_quoted(&mut out, version.as_str());
            push_str(&mut out, "}\n");
            proof {
                reveal_strlit("{\"type\":\"status\",\"enabled\":");
                reveal_strlit("{\"type\":\"");
                reveal_strlit("status");
                reveal_strlit("\"");
                reveal_strlit(",\"enabled\":");
                reveal_strlit(",\"locale\":");
                reveal_strlit(",\"version\":");
                reveal_strlit("}");
                reveal_strlit("\n");
                reveal_strlit("}\n");
                assert(out@ =~= spec_encode_daemon(msg.deep_view()));
            }
        },
        DaemonMsg::Ack { ok, message } => {
            push_str(&mut out, "{\"type\":\"ack\",\"ok\":");
            if *ok {
                push_str(&mut out, "true");
            } else {
                push_str(&mut out, "false");
            }
            push_str(&mut out, ",\"message\":");
            push_quoted(&mut out, message.as_str());
            push_str(&mut out, "}\n");
            proof {
                reveal_strlit("{\"type\":\"ack\",\"ok\":");
                reveal_strlit("{\"type\":\"");
                reveal_strlit("ack");
                reveal_strlit("\"");
                reveal_strlit(",\"ok\":");
                reveal_strlit(",\"message\":");
                reveal_strlit("}");
                reveal_strlit("\n");
                reveal_strlit("}\n");
                assert(out@ =~= spec_encode_daemon(msg.deep_view()));
            }
        },
    }
    out
}

/// Encode a client message as one newline-terminated JSON line.
pub fn encode_client(msg: &ClientMsg) -> (r: String)
    ensures
        r@ == spec_encode_client(msg.deep_view()),
{
    let mut out = String::new();
    let tag: &str = match msg {
        ClientMsg::Select { .. } => "select",
        ClientMsg::Dismiss => "dismiss",
        ClientMsg::Toggle => "toggle",
        ClientMsg::Enable => "enable",
        ClientMsg::Disable => "disable",
        ClientMsg::SetLocale { .. } => "set_locale",
        ClientMsg::GetStatus => "get_status",
        ClientMsg::RegisterPopup => "register_popup",
    };
    push_str(&mut out, "{\"type\":\"");
    push_str(&mut out, tag);
    push_str(&mut out, "\"");
    match msg {
        ClientMsg::Select { index } => {
            push_str(&mut out, ",\"index\":");
            push_dec_u8(&mut out, *index);
            push_str(&mut out, "}\n");
            proof {
                reveal_strlit(",\"index\":");
                reveal_strlit("}");
                reveal_strlit("\n");
                reveal_strlit("}\n");
                assert(out@ =~= spec_encode_client(msg.deep_view()));
            }
        },
        ClientMsg::SetLocale { locale } => {
            push_str(&mut out, ",\"locale\":");
            push_quoted(&mut out, locale.as_str());
            push_str(&mut out, "}\n");
            proof {
                reveal_strlit(",\"locale\":");
                reveal_strlit("}");
                reveal_strlit("\n");
                reveal_strlit("}\n");
                assert(out@ =~= spec_encode_client(msg.deep_view()));
            }
        },
        _ => {
            push_str(&mut out, "}\n");
            proof {
                reveal_strlit("}");
                reveal_strlit("\n");
                reveal_strlit("}\n");
                assert(out@ =~= spec_encode_client(msg.deep_view()));
            }
        },
    }
    out
}

/// Whether the rest of the input from `j` is exactly the closing
/// brace.
fn at_closing(t: &Vec<char>, j: usize) -> (r: bool)
    requires
        j <= t@.len(),
    ensures
        r == (t@.skip(j as int) == "}"@),
{
    proof {
        reveal_strlit("}");
        assert(("}"@).len() == 1);
        assert(("}"@)[0] == '}');
        if t@.len() - j == 1 {
            assert(t@.skip(j as int)[0] == t@[j as int]);
            if t@[j as int] == '}' {
                assert(t@.skip(j as int) =~= "}"@);
            } else {
                assert(t@.skip(j as int)[0] != ("}"@)[0]);
            }
        } else {
            assert(t@.skip(j as int).len() != ("}"@).len());
        }
    }
    t.len() - j == 1 && t[j] == '}'
}

/// Parse a quoted string token at position `i`.
fn p_quoted(t: &Vec<char>, i: usize) -> (r: Option<(String, usize)>)
    requires
        i <= t@.len(),
    ensures
        match r {
            Some(p) => i <= p.1 <= t@.len() && parse_quoted(t@.skip(i as int)) == Some(
                (p.0@, t@.skip(p.1 as int)),
            ),
            None => parse_quoted(t@.skip(i as int)) is None,
        },
{
    proof {
        if i < t.len() {
            assert(t@.skip(i as int)[0] == t@[i as int]);
        }
    }
    if i == t.len() || t[i] != '"' {
        return None;
    }
    proof {
        assert(t@.skip(i as int).drop_first() =~= t@.skip(i as int + 1));
    }
    p_string(t, i + 1)
}

fn d_show_popup(t: &Vec<char>, j1: usize) -> (r: Option<DaemonMsg>)
    requires
        j1 <= t@.len(),
    ensures
        r.deep_view() == dec_show_popup(t@.skip(j1 as int)),
{
    let j2 = match p_lit(t, j1, ",\"base\":") {
        None => {
            return None;
        },
        Some(j) => j,
    };
    let (base, j3) = match p_quoted(t, j2) {
        None => {
            return None;
        },
        Some(p) => p,
    };
    let j4 = match p_lit(t, j3, ",\"accents\":") {
        None => {
            return None;
        },
        Some(j) => j,
    };
    let (accents, j5) = match p_str_list(t, j4) {
        None => {
            return None;
        },
        Some(p) => p,
    };
    let j6 = match p_lit(t, j5, ",\"labels\":") {
        None => {
            return None;
        },
        Some(j) => j,
    };
    let (labels, j7) = match p_u8_list(t, j6) {
        None => {
            return None;
        },
        Some(p) => p,
    };
    if at_closing(t, j7) {
        Some(DaemonMsg::ShowPopup { base, accents, labels })
    } else {
        None
    }
}

fn d_status(t: &Vec<char>, j1: usize) -> (r: Option<DaemonMsg>)
    requires
        j1 <= t@.len(),
    ensures
        r.deep_view() == dec_status(t@.skip(j1 as int)),
{
    let j2 = match p_lit(t, j1, ",\"enabled\":") {
        None => {
            return None;
        },
        Some(j) => j,
    };
    let (enabled, j3) = match p_bool(t, j2) {
        None => {
            return None;
        },
        Some(p) => p,
    };
    let j4 = match p_lit(t, j3, ",\"locale\":") {
        None => {
            return None;
        },
        Some(j) => j,
    };
    let (locale, j5) = match p_quoted(t, j4) {
        None => {
            return None;
        },
        Some(p) => p,
    };
    let j6 = match p_lit(t, j5, ",\"version\":") {
        None => {
            return None;
        },
        Some(j) => j,
    };
    let (version, j7) = match p_quoted(t, j6) {
        None => {
            return None;
        },
        Some(p) => p,
    };
    if at_closing(t, j7) {
        Some(DaemonMsg::Status { enabled, locale, version })
    } else {
        None
    }
}

fn d_ack(t: &Vec<char>, j1: usize) -> (r: Option<DaemonMsg>)
    requires
        j1 <= t@.len(),
    ensures
        r.deep_view() == dec_ack(t@.skip(j1 as int)),
{
    let j2 = match p_lit(t, j1, ",\"ok\":") {
        None => {
            return None;
        },
        Some(j) => j,
    };
    let (ok, j3) = match p_bool(t, j2) {
        None => {
            return None;
        },
        Some(p) => p,
    };
    let j4 = match p_lit(t, j3, ",\"message\":") {
        None => {
            return None;
        },
        Some(j) => j,
    };
    let (message, j5) = match p_quoted(t, j4) {
        None => {
            return None;
        },
        Some(p) => p,
    };
    if at_closing(t, j5) {
        Some(DaemonMsg::Ack { ok, message })
    } else {
        None
    }
}

/// Decode one line as a daemon message; whitespace-only lines,
/// malformed JSON and unknown tags decode to nothing.
pub fn decode_daemon(line: &str) -> (r: Option<DaemonMsg>)
    ensures
        r.deep_view() == spec_decode_daemon(line@),
{
    let chars = str_chars(line);
    let t = exec_trim(&chars);
    proof {
        assert(t@.skip(0) =~= t@);
    }
    let j0 = match p_lit(&t, 0, "{\"type\":\"") {
        None => {
            return None;
        },
        Some(j) => j,
    };
    let (tag, j1) = match p_string(&t, j0) {
        None => {
            return None;
        },
        Some(p) => p,
    };
    if str_eq(tag.as_str(), "show_popup") {
        d_show_popup(&t, j1)
    } else if str_eq(tag.as_str(), "hide_popup") {
        if at_closing(&t, j1) {
            Some(DaemonMsg::HidePopup)
        } else {
            None
        }
    } else if str_eq(tag.as_str(), "status") {
        d_status(&t, j1)
    } else if str_eq(tag.as_str(), "ack") {
        d_ack(&t, j1)
    } else {
        None
    }
}

fn c_select(t: &Vec<char>, j1: usize) -> (r: Option<ClientMsg>)
    requires
        j1 <= t@.len(),
    ensures
        r.deep_view() == dec_select(t@.skip(j1 as int)),
{
    let j2 = match p_lit(t, j1, ",\"index\":") {
        None => {
            return None;
        },
        Some(j) => j,
    };
    let (index, j3) = match p_u8(t, j2) {
        None => {
            return None;
        },
        Some(p) => p,
    };
    if at_closing(t, j3) {
        Some(ClientMsg::Select { index })
    } else {
        None
    }
}

fn c_set_locale(t: &Vec<char>, j1: usize) -> (r: Option<ClientMsg>)
    requires
        j1 <= t@.len(),
    ensures
        r.deep_view() == dec_set_locale(t@.skip(j1 as int)),
{
    let j2 = match p_lit(t, j1, ",\"locale\":") {
        None => {
            return None;
        },
        Some(j) => j,
    };
    let (locale, j3) = match p_quoted(t, j2) {
        None => {
            return None;
        },
        Some(p) => p,
    };
    if at_closing(t, j3) {
        Some(ClientMsg::SetLocale { locale })
    } else {
        None
    }
}

/// Decode one line as a client message; whitespace-only lines,
/// malformed JSON and unknown tags decode to nothing.
pub fn decode_client(line: &str) -> (r: Option<ClientMsg>)
    ensures
        r.deep_view() == spec_decode_client(line@),
{
    let chars = str_chars(line);
    let t = exec_trim(&chars);
    proof {
        assert(t@.skip(0) =~= t@);
    }
    let j0 = match p_lit(&t, 0, "{\"type\":\"") {
        None => {
            return None;
        },
        Some(j) => j,
    };
    let (tag, j1) = match p_string(&t, j0) {
        None => {
            return None;
        },
        Some(p) => p,
    };
    if str_eq(tag.as_str(), "select") {
        c_select(&t, j1)
    } else if str_eq(tag.as_str(), "dismiss") {
        if at_closing(&t, j1) {
            Some(ClientMsg::Dismiss)
        } else {
            None
        }
    } else if str_eq(tag.as_str(), "toggle") {
        if at_closing(&t, j1) {
            Some(ClientMsg::Toggle)
        } else {
            None
        }
    } else if str_eq(tag.as_str(), "enable") {
        if at_closing(&t, j1) {
            Some(ClientMsg::Enable)
        } else {
            None
        }
    } else if str_eq(tag.as_str(), "disable") {
        if at_closing(&t, j1) {
            Some(ClientMsg::Disable)
        } else {
            None
        }
    } else if str_eq(tag.as_str(), "set_locale") {
        c_set_locale(&t, j1)
    } else if str_eq(tag.as_str(), "get_status") {
        if at_closing(&t, j1) {
            Some(ClientMsg::GetStatus)
        } else {
            None
        }
    } else if str_eq(tag.as_str(), "register_popup") {
        if at_closing(&t, j1) {
            Some(ClientMsg::RegisterPopup)
        } else {
            None
        }
    } else {
        None
    }
}


proof fn lemma_parse_bool_round(b: bool, rest: Seq<char>)
    ensures
        parse_bool(bool_lit(b) + rest) == Some((b, rest)),
{
    reveal_strlit("true");
    reveal_strlit("false");
    if b {
        lemma_parse_lit_prefix("true"@, rest);
    } else {
        let w = "false"@ + rest;
        assert(w[0] == 'f');
        if ("true"@).len() <= w.len() {
            assert(w.take(("true"@).len() as int)[0] == 'f');
            assert(w.take(("true"@).len() as int) != "true"@);
        }
        lemma_parse_lit_prefix("false"@, rest);
    }
}

proof fn lemma_tag_round(tag: Seq<char>, rest: Seq<char>)
    requires
        forall|i: int| 0 <= i < tag.len() ==> !needs_escape(#[trigger] tag[i]),
    ensures
        parse_string_body(tag + seq!['"'] + rest) == Some((tag, rest)),
{
    lemma_escape_clean(tag);
    lemma_parse_string_round(tag, rest);
}

proof fn lemma_daemon_preamble(m: DaemonMsgV)
    ensures
        ({
            let t = spec_trim(spec_encode_daemon(m));
            parse_lit(t, "{\"type\":\""@) == Some(
                daemon_tag(m) + seq!['"'] + daemon_fields(m),
            ) && parse_string_body(daemon_tag(m) + seq!['"'] + daemon_fields(m)) == Some(
                (daemon_tag(m), daemon_fields(m)),
            )
        }),
{
    reveal_strlit("{\"type\":\"");
    reveal_strlit("\"");
    reveal_strlit("\n");
    reveal_strlit("}");
    reveal_strlit("show_popup");
    reveal_strlit("hide_popup");
    reveal_strlit("status");
    reveal_strlit("ack");
    let tag = daemon_tag(m);
    let fields = daemon_fields(m);
    let body = "{\"type\":\""@ + tag + "\""@ + fields;
    assert(fields.last() == '}') by {
        match m {
            DaemonMsgV::ShowPopup { .. } => {},
            DaemonMsgV::HidePopup => {},
            DaemonMsgV::Status { .. } => {},
            DaemonMsgV::Ack { .. } => {},
        }
    }
    assert(spec_encode_daemon(m) =~= body + seq!['\n']);
    assert(body[0] == '{');
    assert(body.last() == '}');
    lemma_trim_line(body);
    assert(spec_trim(spec_encode_daemon(m)) == body);
    assert(body =~= "{\"type\":\""@ + (tag + seq!['"'] + fields));
    lemma_parse_lit_prefix("{\"type\":\""@, tag + seq!['"'] + fields);
    assert(forall|i: int| 0 <= i < tag.len() ==> !needs_escape(#[trigger] tag[i])) by {
        match m {
            DaemonMsgV::ShowPopup { .. } => {},
            DaemonMsgV::HidePopup => {},
            DaemonMsgV::Status { .. } => {},
            DaemonMsgV::Ack { .. } => {},
        }
    }
    lemma_tag_round(tag, fields);
}

proof fn lemma_fields_show_popup(m: DaemonMsgV)
    requires
        m is ShowPopup,
    ensures
        dec_show_popup(daemon_fields(m)) == Some(m),
{
    reveal_strlit("}");
    reveal_strlit(",\"base\":");
    reveal_strlit(",\"accents\":");
    reveal_strlit(",\"labels\":");
    let base = m->ShowPopup_base;
    let accents = m->ShowPopup_accents;
    let labels = m->ShowPopup_labels;
    let fields = daemon_fields(m);
    let r5 = u8_list(labels) + "}"@;
    let r4 = ",\"labels\":"@ + r5;
    let r3 = str_list(accents) + r4;
    let r2 = ",\"accents\":"@ + r3;
    let r1 = quote(base) + r2;
    assert(fields =~= ",\"base\":"@ + r1);
    lemma_parse_lit_prefix(",\"base\":"@, r1);
    assert(r1 =~= quote(base) + r2);
    lemma_parse_quoted_round(base, r2);
    lemma_parse_lit_prefix(",\"accents\":"@, r3);
    assert(r3 =~= str_list(accents) + r4);
    lemma_str_list_round(accents, r4);
    lemma_parse_lit_prefix(",\"labels\":"@, r5);
    assert(r5 =~= u8_list(labels) + "}"@);
    lemma_u8_list_round(labels, "}"@);
}

proof fn lemma_fields_status(m: DaemonMsgV)
    requires
        m is Status,
    ensures
        dec_status(daemon_fields(m)) == Some(m),
{
    reveal_strlit("}");
    reveal_strlit(",\"enabled\":");
    reveal_strlit(",\"locale\":");
    reveal_strlit(",\"version\":");
    let enabled = m->Status_enabled;
    let locale = m->Status_locale;
    let version = m->Status_version;
    let fields = daemon_fields(m);
    let r5 = quote(version) + "}"@;
    let r4 = ",\"version\":"@ + r5;
    let r3 = quote(locale) + r4;
    let r2 = ",\"locale\":"@ + r3;
    let r1 = bool_lit(enabled) + r2;
    assert(fields =~= ",\"enabled\":"@ + r1);
    lemma_parse_lit_prefix(",\"enabled\":"@, r1);
    assert(r1 =~= bool_lit(enabled) + r2);
    lemma_parse_bool_round(enabled, r2);
    lemma_parse_lit_prefix(",\"locale\":"@, r3);
    assert(r3 =~= quote(locale) + r4);
    lemma_parse_quoted_round(locale, r4);
    lemma_parse_lit_prefix(",\"version\":"@, r5);
    assert(r5 =~= quote(version) + "}"@);
    lemma_parse_quoted_round(version, "}"@);
}

proof fn lemma_fields_ack(m: DaemonMsgV)
    requires
        m is Ack,
    ensures
        dec_ack(daemon_fields(m)) == Some(m),
{
    reveal_strlit("}");
    reveal_strlit(",\"ok\":");
    reveal_strlit(",\"message\":");
    let ok = m->Ack_ok;
    let message = m->Ack_message;
    let fields = daemon_fields(m);
    let r3 = quote(message) + "}"@;
    let r2 = ",\"message\":"@ + r3;
    let r1 = bool_lit(ok) + r2;
    assert(fields =~= ",\"ok\":"@ + r1);
    lemma_parse_lit_prefix(",\"ok\":"@, r1);
    assert(r1 =~= bool_lit(ok) + r2);
    lemma_parse_bool_round(ok, r2);
    lemma_parse_lit_prefix(",\"message\":"@, r3);
    assert(r3 =~= quote(message) + "}"@);
    lemma_parse_quoted_round(message, "}"@);
}

/// Encode/decode round trip for daemon messages: decoding an encoded
/// message gives the message back.
pub proof fn lemma_daemon_round_trip(m: DaemonMsgV)
    ensures
        spec_decode_daemon(spec_encode_daemon(m)) == Some(m),
{
    reveal_strlit("show_popup");
    reveal_strlit("hide_popup");
    reveal_strlit("status");
    reveal_strlit("ack");
    lemma_daemon_preamble(m);
    match m {
        DaemonMsgV::ShowPopup { .. } => {
            lemma_fields_show_popup(m);
        },
        DaemonMsgV::HidePopup => {
            assert(daemon_tag(m) != ("show_popup"@)) by {
                assert(("hide_popup"@)[0] != ("show_popup"@)[0]);
            }
        },
        DaemonMsgV::Status { .. } => {
            assert(daemon_tag(m) != ("show_popup"@));
            assert(daemon_tag(m) != ("hide_popup"@));
            lemma_fields_status(m);
        },
        DaemonMsgV::Ack { .. } => {
            assert(daemon_tag(m) != ("show_popup"@));
            assert(daemon_tag(m) != ("hide_popup"@));
            assert(daemon_tag(m) != ("status"@));
            lemma_fields_ack(m);
        },
    }
}

/// Encode/decode round trip for client messages.
pub proof fn lemma_client_round_trip(m: ClientMsgV)
    ensures
        spec_decode_client(spec_encode_client(m)) == Some(m),
{
    reveal_strlit("{\"type\":\"");
    reveal_strlit("\"");
    reveal_strlit("\n");
    reveal_strlit("}");
    reveal_strlit("select");
    reveal_strlit("dismiss");
    reveal_strlit("toggle");
    reveal_strlit("enable");
    reveal_strlit("disable");
    reveal_strlit("set_locale");
    reveal_strlit("get_status");
    reveal_strlit("register_popup");
    let tag = client_tag(m);
    let fields = client_fields(m);
    let body = "{\"type\":\""@ + tag + "\""@ + fields;
    assert(fields.last() == '}') by {
        match m {
            ClientMsgV::Select { .. } => {},
            ClientMsgV::SetLocale { .. } => {},
            _ => {},
        }
    }
    assert(spec_encode_client(m) =~= body + seq!['\n']);
    assert(body[0] == '{');
    assert(body.last() == '}');
    lemma_trim_line(body);
    assert(spec_trim(spec_encode_client(m)) == body);
    assert(body =~= "{\"type\":\""@ + (tag + seq!['"'] + fields));
    lemma_parse_lit_prefix("{\"type\":\""@, tag + seq!['"'] + fields);
    assert(forall|i: int| 0 <= i < tag.len() ==> !needs_escape(#[trigger] tag[i])) by {
        match m {
            ClientMsgV::Select { .. } => {},
            ClientMsgV::SetLocale { .. } => {},
            _ => {},
        }
    }
    lemma_tag_round(tag, fields);
    match m {
        ClientMsgV::Select { index } => {
            reveal_strlit(",\"index\":");
            let r1 = dec_digits(index as nat) + "}"@;
            assert(fields =~= ",\"index\":"@ + r1);
            lemma_parse_lit_prefix(",\"index\":"@, r1);
            assert(r1 =~= dec_digits(index as nat) + "}"@);
            assert(!is_digit(("}"@)[0]));
            lemma_parse_u8_round(index, "}"@);
        },
        ClientMsgV::Dismiss => {
        },
        ClientMsgV::Toggle => {
            assert(tag != ("select"@)) by {
                assert(("toggle"@)[0] != ("select"@)[0]);
            }
        },
        ClientMsgV::Enable => {
            assert(tag != ("select"@)) by {
                assert(("enable"@)[0] != ("select"@)[0]);
            }
            assert(tag != ("toggle"@)) by {
                assert(("enable"@)[0] != ("toggle"@)[0]);
            }
        },
        ClientMsgV::Disable => {
            assert(tag != ("dismiss"@)) by {
                assert(("disable"@)[3] != ("dismiss"@)[3]);
            }
        },
        ClientMsgV::SetLocale { locale } => {
            reveal_strlit(",\"locale\":");
            let r1 = quote(locale) + "}"@;
            assert(fields =~= ",\"locale\":"@ + r1);
            lemma_parse_lit_prefix(",\"locale\":"@, r1);
            assert(r1 =~= quote(locale) + "}"@);
            lemma_parse_quoted_round(locale, "}"@);
        },
        ClientMsgV::GetStatus => {
            assert(tag != ("set_locale"@)) by {
                assert(("get_status"@)[0] != ("set_locale"@)[0]);
            }
        },
        ClientMsgV::RegisterPopup => {
        },
    }
}


proof fn lemma_bool_lit_no_newline(b: bool)
    ensures
        no_newline(bool_lit(b)),
{
    reveal_strlit("true");
    reveal_strlit("false");
}

proof fn lemma_daemon_body_no_newline(m: DaemonMsgV)
    ensures
        no_newline("{\"type\":\""@ + daemon_tag(m) + "\""@ + daemon_fields(m)),
{
    reveal_strlit("{\"type\":\"");
    reveal_strlit("\"");
    reveal_strlit("}");
    reveal_strlit("show_popup");
    reveal_strlit("hide_popup");
    reveal_strlit("status");
    reveal_strlit("ack");
    let tag = daemon_tag(m);
    let fields = daemon_fields(m);
    assert(no_newline(tag)) by {
        match m {
            DaemonMsgV::ShowPopup { .. } => {},
            DaemonMsgV::HidePopup => {},
            DaemonMsgV::Status { .. } => {},
            DaemonMsgV::Ack { .. } => {},
        }
    }
    assert(no_newline(fields)) by {
        match m {
            DaemonMsgV::ShowPopup { base, accents, labels } => {
                reveal_strlit(",\"base\":");
                reveal_strlit(",\"accents\":");
                reveal_strlit(",\"labels\":");
                lemma_quote_no_newline(base);
                lemma_str_list_no_newline(accents);
                lemma_u8_list_no_newline(labels);
                lemma_no_newline_concat(",\"base\":"@, quote(base));
                lemma_no_newline_concat(",\"base\":"@ + quote(base), ",\"accents\":"@);
                lemma_no_newline_concat(
                    ",\"base\":"@ + quote(base) + ",\"accents\":"@,
                    str_list(accents),
                );
                lemma_no_newline_concat(
                    ",\"base\":"@ + quote(base) + ",\"accents\":"@ + str_list(accents),
                    ",\"labels\":"@,
                );
                lemma_no_newline_concat(
                    ",\"base\":"@ + quote(base) + ",\"accents\":"@ + str_list(accents)
                        + ",\"labels\":"@,
                    u8_list(labels),
                );
                lemma_no_newline_concat(
                    ",\"base\":"@ + quote(base) + ",\"accents\":"@ + str_list(accents)
                        + ",\"labels\":"@ + u8_list(labels),
                    "}"@,
                );
            },
            DaemonMsgV::HidePopup => {},
            DaemonMsgV::Status { enabled, locale, version } => {
                reveal_strlit(",\"enabled\":");
                reveal_strlit(",\"locale\":");
                reveal_strlit(",\"version\":");
                lemma_bool_lit_no_newline(enabled);
                lemma_quote_no_newline(locale);
                lemma_quote_no_newline(version);
                lemma_no_newline_concat(",\"enabled\":"@, bool_lit(enabled));
                lemma_no_newline_concat(",\"enabled\":"@ + bool_lit(enabled), ",\"locale\":"@);
                lemma_no_newline_concat(
                    ",\"enabled\":"@ + bool_lit(enabled) + ",\"locale\":"@,
                    quote(locale),
                );
                lemma_no_newline_concat(
                    ",\"enabled\":"@ + bool_lit(enabled) + ",\"locale\":"@ + quote(locale),
                    ",\"version\":"@,
                );
                lemma_no_newline_concat(
                    ",\"enabled\":"@ + bool_lit(enabled) + ",\"locale\":"@ + quote(locale)
                        + ",\"version\":"@,
                    quote(version),
                );
                lemma_no_newline_concat(
                    ",\"enabled\":"@ + bool_lit(enabled) + ",\"locale\":"@ + quote(locale)
                        + ",\"version\":"@ + quote(version),
                    "}"@,
                );
            },
            DaemonMsgV::Ack { ok, message } => {
                reveal_strlit(",\"ok\":");
                reveal_strlit(",\"message\":");
                lemma_bool_lit_no_newline(ok);
                lemma_quote_no_newline(message);
                lemma_no_newline_concat(",\"ok\":"@, bool_lit(ok));
                lemma_no_newline_concat(",\"ok\":"@ + bool_lit(ok), ",\"message\":"@);
                lemma_no_newline_concat(
                    ",\"ok\":"@ + bool_lit(ok) + ",\"message\":"@,
                    quote(message),
                );
                lemma_no_newline_concat(
                    ",\"ok\":"@ + bool_lit(ok) + ",\"message\":"@ + quote(message),
                    "}"@,
                );
            },
        }
    }
    lemma_no_newline_concat("{\"type\":\""@, tag);
    lemma_no_newline_concat("{\"type\":\""@ + tag, "\""@);
    lemma_no_newline_concat("{\"type\":\""@ + tag + "\""@, fields);
}

/// An encoded daemon line ends with exactly one newline: the last
/// character is a newline and no earlier character is.
pub proof fn lemma_encode_daemon_single_newline(m: DaemonMsgV)
    ensures
        spec_encode_daemon(m).len() > 0,
        spec_encode_daemon(m).last() == '\n',
        forall|i: int|
            0 <= i < spec_encode_daemon(m).len() - 1 ==> spec_encode_daemon(m)[i] != '\n',
{
    reveal_strlit("\n");
    lemma_daemon_body_no_newline(m);
    let body = "{\"type\":\""@ + daemon_tag(m) + "\""@ + daemon_fields(m);
    assert(spec_encode_daemon(m) =~= body + seq!['\n']);
    assert(spec_encode_daemon(m).last() == '\n');
    assert forall|i: int|
        0 <= i < spec_encode_daemon(m).len() - 1 implies spec_encode_daemon(m)[i] != '\n' by {
        assert(spec_encode_daemon(m)[i] == body[i]);
    }
}

proof fn lemma_client_body_no_newline(m: ClientMsgV)
    ensures
        no_newline("{\"type\":\""@ + client_tag(m) + "\""@ + client_fields(m)),
{
    reveal_strlit("{\"type\":\"");
    reveal_strlit("\"");
    reveal_strlit("}");
    reveal_strlit("select");
    reveal_strlit("dismiss");
    reveal_strlit("toggle");
    reveal_strlit("enable");
    reveal_strlit("disable");
    reveal_strlit("set_locale");
    reveal_strlit("get_status");
    reveal_strlit("register_popup");
    let tag = client_tag(m);
    let fields = client_fields(m);
    assert(no_newline(tag)) by {
        match m {
            ClientMsgV::Select { .. } => {},
            ClientMsgV::SetLocale { .. } => {},
            _ => {},
        }
    }
    assert(no_newline(fields)) by {
        match m {
            ClientMsgV::Select { index } => {
                reveal_strlit(",\"index\":");
                lemma_dec_digits_no_newline(index as nat);
                lemma_no_newline_concat(",\"index\":"@, dec_digits(index as nat));
                lemma_no_newline_concat(",\"index\":"@ + dec_digits(index as nat), "}"@);
            },
            ClientMsgV::SetLocale { locale } => {
                reveal_strlit(",\"locale\":");
                lemma_quote_no_newline(locale);
                lemma_no_newline_concat(",\"locale\":"@, quote(locale));
                lemma_no_newline_concat(",\"locale\":"@ + quote(locale), "}"@);
            },
            _ => {},
        }
    }
    lemma_no_newline_concat("{\"type\":\""@, tag);
    lemma_no_newline_concat("{\"type\":\""@ + tag, "\""@);
    lemma_no_newline_concat("{\"type\":\""@ + tag + "\""@, fields);
}

/// An encoded client line ends with exactly one newline.
pub proof fn lemma_encode_client_single_newline(m: ClientMsgV)
    ensures
        spec_encode_client(m).len() > 0,
        spec_encode_client(m).last() == '\n',
        forall|i: int|
            0 <= i < spec_encode_client(m).len() - 1 ==> spec_encode_client(m)[i] != '\n',
{
    reveal_strlit("\n");
    lemma_client_body_no_newline(m);
    let body = "{\"type\":\""@ + client_tag(m) + "\""@ + client_fields(m);
    assert(spec_encode_client(m) =~= body + seq!['\n']);
    assert(spec_encode_client(m).last() == '\n');
    assert forall|i: int|
        0 <= i < spec_encode_client(m).len() - 1 implies spec_encode_client(m)[i] != '\n' by {
        assert(spec_encode_client(m)[i] == body[i]);
    }
}

} // verus!
