//! Notifications from agents to the clients: what the daemon broadcasts
//! for a notify request, and what a client shows and hands its interface
//! when one arrives.

use vstd::prelude::*;
use crate::kdl_tree::opt_str;
use crate::text::{str_chars, chars_to_string, push_str, push_decimal, decimal};
use crate::helper::{all_digits, digits_value, lemma_digits_value_monotone};
use crate::projects::{NotifyRequest, NavigationTarget, NotificationSource, source_of};

verus! {

/// A notification as it is broadcast to the clients.
#[derive(Debug)]
pub struct Notification {
    pub title: String,
    pub body: String,
    /// The pane that following the notification opens, if any.
    pub target: Option<NavigationTarget>,
    /// A question the agent asks; empty where there is none.
    pub question: String,
    pub source: NotificationSource,
}

/// What the interface of a client is handed for a notification: its text,
/// its sender and the pane it leads to, flattened.
#[derive(Debug)]
pub struct AgentNotifEvent {
    pub title: String,
    pub body: String,
    pub question: String,
    pub source: NotificationSource,
    pub session_name: Option<String>,
    pub tab_index: u32,
    pub pane_id: u32,
}

/// `o`, or the empty string where it is `None`.
pub open spec fn or_empty(o: Option<Seq<char>>) -> Seq<char> {
    match o {
        Some(s) => s,
        None => Seq::empty(),
    }
}

fn clone_target(t: &NavigationTarget) -> (r: NavigationTarget)
    ensures
        r.session_name@ == t.session_name@,
        r.tab_index == t.tab_index,
        r.pane_id == t.pane_id,
{
    NavigationTarget { session_name: t.session_name.clone(), tab_index: t.tab_index, pane_id: t.pane_id }
}

/// The notification broadcast for the request `req`: its title and body;
/// the pane it names (where it names a session, tab and pane defaulting to
/// 0); its question or nothing; and its sender (`claude_code`,
/// `gemini_cli`, `zellij_plugin`, else the user).
pub fn trigger_notify(req: &NotifyRequest) -> (r: Notification)
    ensures
        r.title@ == req.title@,
        r.body@ == req.body@,
        r.question@ == or_empty(opt_str(req.question)),
        r.source == source_of(opt_str(req.source)),
        match req.session_name {
            Some(s) => r.target matches Some(t) && t.session_name@ == s@ && t.tab_index == match req.tab_index {
                Some(x) => x,
                None => 0u32,
            } && t.pane_id == match req.pane_id {
                Some(x) => x,
                None => 0u32,
            },
            None => r.target is None,
        },
{
    Notification {
        title: req.title.clone(),
        body: req.body.clone(),
        target: req.navigation_target(),
        question: match &req.question {
            Some(q) => q.clone(),
            None => String::new(),
        },
        source: req.notification_source(),
    }
}

/// The text of the system notification a client shows: the question where
/// there is one, else the body.
pub fn alert_body(n: &Notification) -> (r: String)
    ensures
        r@ == if n.question@.len() > 0 {
            n.question@
        } else {
            n.body@
        },
{
    if n.question.as_str().unicode_len() > 0 {
        n.question.clone()
    } else {
        n.body.clone()
    }
}

/// What the interface of a client is handed for `n`: its texts and sender,
/// and the session, tab and pane of its target (none, 0 and 0 without one).
pub fn agent_event(n: &Notification) -> (r: AgentNotifEvent)
    ensures
        r.title@ == n.title@,
        r.body@ == n.body@,
        r.question@ == n.question@,
        r.source == n.source,
        match n.target {
            Some(t) => r.session_name matches Some(s) && s@ == t.session_name@ && r.tab_index == t.tab_index
                && r.pane_id == t.pane_id,
            None => r.session_name is None && r.tab_index == 0 && r.pane_id == 0,
        },
{
    let (session_name, tab_index, pane_id) = match &n.target {
        Some(t) => {
            let c = clone_target(t);
            (Some(c.session_name), c.tab_index, c.pane_id)
        },
        None => (None, 0, 0),
    };
    AgentNotifEvent {
        title: n.title.clone(),
        body: n.body.clone(),
        question: n.question.clone(),
        source: n.source,
        session_name,
        tab_index,
        pane_id,
    }
}

// ---------------------------------------------------------------------------
// The command-line client
// ---------------------------------------------------------------------------

/// `u32::from_str`: an optional `+`, then one or more ASCII digits whose
/// value fits in 32 bits.
pub open spec fn spec_parse_u32(s: Seq<char>) -> Option<u32> {
    let d = if s.len() > 0 && s[0] == '+' {
        s.drop_first()
    } else {
        s
    };
    if d.len() == 0 || !all_digits(d) || digits_value(d) > 4294967295 {
        None
    } else {
        Some(digits_value(d) as u32)
    }
}

/// `s.parse::<u32>()`.
pub fn parse_u32(s: &str) -> (r: Option<u32>)
    ensures
        r == spec_parse_u32(s@),
{
    let cs = str_chars(s);
    let start: usize = if cs.len() > 0 && cs[0] == '+' {
        1
    } else {
        0
    };
    let ghost d = if s@.len() > 0 && s@[0] == '+' {
        s@.drop_first()
    } else {
        s@
    };
    assert(d =~= cs@.skip(start as int));
    if start == cs.len() {
        return None;
    }
    let mut value: u64 = 0;
    let mut i: usize = start;
    while i < cs.len()
        invariant
            start <= i <= cs@.len(),
            cs@ == s@,
            d == cs@.skip(start as int),
            d == (if s@.len() > 0 && s@[0] == '+' {
                s@.drop_first()
            } else {
                s@
            }),
            all_digits(d.take(i - start)),
            value == digits_value(d.take(i - start)),
            value <= 4294967295,
        decreases cs@.len() - i,
    {
        let c = cs[i];
        if !('0' <= c && c <= '9') {
            assert(d[i - start] == c);
            assert(!all_digits(d));
            return None;
        }
        let dv: u64 = (c as u64) - ('0' as u64);
        assert(d.take(i - start + 1).drop_last() =~= d.take(i - start));
        assert(d.take(i - start + 1).last() == c);
        let next: u64 = value * 10 + dv;
        assert(digits_value(d.take(i - start + 1)) == next);
        if next > 4294967295 {
            proof {
                assert(all_digits(d.take(i - start + 1)));
                if all_digits(d) {
                    lemma_digits_value_monotone(d, i - start + 1);
                }
            }
            return None;
        }
        value = next;
        i = i + 1;
    }
    assert(d.take(i - start) =~= d);
    Some(value as u32)
}

/// The number that an environment variable holds, if it is set and holds one.
pub open spec fn env_number(v: Option<Seq<char>>) -> Option<u32> {
    match v {
        Some(s) => spec_parse_u32(s),
        None => None,
    }
}

/// The notify request the command-line client sends: the given texts and
/// sender, the Zellij session, tab and pane it runs in (from
/// `ZELLIJ_SESSION_NAME`, `ZELLIJ_TAB_INDEX` and `ZELLIJ_PANE_ID`; a tab or
/// pane that is not a number is left out).
pub fn notify_request_from_env(
    title: String,
    body: String,
    question: Option<String>,
    source: String,
    session_name: Option<String>,
    tab_index: Option<&str>,
    pane_id: Option<&str>,
) -> (r: NotifyRequest)
    ensures
        r.title@ == title@,
        r.body@ == body@,
        opt_str(r.question) == opt_str(question),
        opt_str(r.source) == Some(source@),
        opt_str(r.session_name) == opt_str(session_name),
        r.tab_index == env_number(match tab_index {
            Some(t) => Some(t@),
            None => None,
        }),
        r.pane_id == env_number(match pane_id {
            Some(p) => Some(p@),
            None => None,
        }),
{
    let tab = match tab_index {
        Some(t) => parse_u32(t),
        None => None,
    };
    let pane = match pane_id {
        Some(p) => parse_u32(p),
        None => None,
    };
    NotifyRequest {
        title,
        body,
        question,
        session_name,
        tab_index: tab,
        pane_id: pane,
        source: Some(source),
    }
}

/// The daemon endpoint a trigger is posted to: `show`, `md` or `notify`
/// under `/api/v1/trigger/` on the loopback address and `port`.
pub fn trigger_url(port: u16, action: &str) -> (r: String)
    ensures
        r@ == "http://127.0.0.1:"@ + decimal(port as nat) + "/api/v1/trigger/"@ + action@,
{
    let mut out: Vec<char> = Vec::new();
    push_str(&mut out, "http://127.0.0.1:");
    push_decimal(&mut out, port as u64);
    push_str(&mut out, "/api/v1/trigger/");
    push_str(&mut out, action);
    chars_to_string(&out)
}

} // verus!
