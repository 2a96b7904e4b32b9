//! What the client says to and reads from a remote host over SSH: the
//! commands that attach to a zellij session or start a mosh server, the
//! `MOSH CONNECT` line, and the list of sessions.

use vstd::prelude::*;
use crate::text::{str_chars, chars_to_string, push_str, push_all, trim, trim_vec, lines, lines_vec, views, contains,
    find_vec};
use crate::kdl_tree::str_eq;
use crate::quote_anchor::{words, split_whitespace};
use crate::helper::nonempty_trimmed;

verus! {

/// The remote command of an SSH terminal: attach to (or create) the zellij
/// session, falling back to a plain shell.
pub fn attach_command(session_name: &str) -> (r: String)
    ensures
        r@ == "zellij attach --create "@ + session_name@ + " || $SHELL"@,
{
    let mut out: Vec<char> = Vec::new();
    push_str(&mut out, "zellij attach --create ");
    push_str(&mut out, session_name);
    push_str(&mut out, " || $SHELL");
    chars_to_string(&out)
}

/// The remote command that starts a mosh server running the session.
pub fn mosh_server_command(session_name: &str) -> (r: String)
    ensures
        r@ == "mosh-server new -c 256 -- sh -c \"zellij attach --create "@ + session_name@
            + " || $SHELL\""@,
{
    let mut out: Vec<char> = Vec::new();
    push_str(&mut out, "mosh-server new -c 256 -- sh -c \"zellij attach --create ");
    push_str(&mut out, session_name);
    push_str(&mut out, " || $SHELL\"");
    chars_to_string(&out)
}

/// The index of the first line of `ls` from `i` on that contains `MOSH CONNECT`.
pub open spec fn connect_line_from(ls: Seq<Seq<char>>, i: int) -> Option<int>
    decreases ls.len() - i,
{
    if i < 0 || i >= ls.len() {
        None
    } else if contains(ls[i], "MOSH CONNECT"@) {
        Some(i)
    } else {
        connect_line_from(ls, i + 1)
    }
}

/// The port and key that the mosh server's output announces on its
/// `MOSH CONNECT <port> <key>` line, or the message that says why not.
pub open spec fn spec_parse_mosh_connect(output: Seq<char>) -> Result<(Seq<char>, Seq<char>), Seq<char>> {
    match connect_line_from(lines(output), 0) {
        None => Err("Mosh server did not return connection string. Output: "@ + output),
        Some(k) => {
            let line = lines(output)[k];
            let parts = words(line);
            if parts.len() < 4 {
                Err("Invalid MOSH CONNECT string: "@ + line)
            } else {
                Ok((parts[2], parts[3]))
            }
        },
    }
}

/// Parse the output of `mosh-server new` for the port and key to connect with.
pub fn parse_mosh_connect(output: &str) -> (r: Result<(String, String), String>)
    ensures
        match (r, spec_parse_mosh_connect(output@)) {
            (Ok((p, k)), Ok((q, l))) => p@ == q && k@ == l,
            (Err(m), Err(n)) => m@ == n,
            _ => false,
        },
{
    let chars = str_chars(output);
    let ls = lines_vec(&chars);
    let ghost lv = views(ls@);
    let pat = str_chars("MOSH CONNECT");
    let mut i: usize = 0;
    while i < ls.len()
        invariant
            i <= ls@.len(),
            lv == views(ls@),
            lv == lines(output@),
            pat@ == "MOSH CONNECT"@,
            connect_line_from(lv, 0) == connect_line_from(lv, i as int),
        ensures
            i <= ls@.len(),
            i < ls@.len() ==> connect_line_from(lv, 0) == Some(i as int),
            i == ls@.len() ==> connect_line_from(lv, 0) is None,
        decreases ls@.len() - i,
    {
        assert(lv[i as int] == ls@[i as int]@);
        if find_vec(&ls[i], &pat).is_some() {
            break;
        }
        i = i + 1;
    }
    if i == ls.len() {
        let mut msg: Vec<char> = Vec::new();
        push_str(&mut msg, "Mosh server did not return connection string. Output: ");
        push_str(&mut msg, output);
        return Err(chars_to_string(&msg));
    }
    assert(lv[i as int] == ls@[i as int]@);
    let parts = split_whitespace(&ls[i]);
    if parts.len() < 4 {
        let mut msg: Vec<char> = Vec::new();
        push_str(&mut msg, "Invalid MOSH CONNECT string: ");
        push_all(&mut msg, &ls[i]);
        return Err(chars_to_string(&msg));
    }
    assert(views(parts@)[2] == parts@[2]@);
    assert(views(parts@)[3] == parts@[3]@);
    Ok((chars_to_string(&parts[2]), chars_to_string(&parts[3])))
}

/// The address mosh connects to without asking DNS: the loopback address
/// for `localhost`; any other host is resolved.
pub fn mosh_fixed_address(host: &str) -> (r: Option<String>)
    ensures
        if host@ == "localhost"@ {
            r matches Some(a) && a@ == "127.0.0.1"@
        } else {
            r is None
        },
{
    if str_eq(host, "localhost") {
        Some("127.0.0.1".to_string())
    } else {
        None
    }
}

/// The names in the output of `zellij list-sessions -n -q`: its non-blank
/// lines, trimmed.
pub fn parse_session_list(output: &str) -> (r: Vec<String>)
    ensures
        r@.map_values(|s: String| s@) == nonempty_trimmed(lines(output@)),
{
    let chars = str_chars(output);
    let ls = lines_vec(&chars);
    let ghost lv = views(ls@);
    let mut out: Vec<String> = Vec::new();
    let mut i: usize = 0;
    assert(out@.map_values(|s: String| s@) =~= Seq::<Seq<char>>::empty());
    while i < ls.len()
        invariant
            i <= ls@.len(),
            lv == views(ls@),
            out@.map_values(|s: String| s@) == nonempty_trimmed(lv.take(i as int)),
        decreases ls@.len() - i,
    {
        assert(lv.take(i + 1).drop_last() =~= lv.take(i as int));
        assert(lv[i as int] == ls@[i as int]@);
        let t = trim_vec(&ls[i]);
        if t.len() > 0 {
            let ghost before = out@.map_values(|s: String| s@);
            out.push(chars_to_string(&t));
            assert(out@.map_values(|s: String| s@) =~= before.push(trim(lv[i as int])));
        }
        i = i + 1;
    }
    assert(lv.take(lv.len() as int) =~= lv);
    out
}

/// The arguments of the `zellij` command that runs an action a client asked
/// for in a session: `-s <session> action`, then the words of the action.
pub fn zellij_action_args(session_name: &str, action: &str) -> (r: Vec<String>)
    ensures
        r@.map_values(|a: String| a@) == seq!["-s"@, session_name@, "action"@] + words(action@),
{
    let mut out: Vec<String> = Vec::new();
    out.push("-s".to_string());
    out.push(session_name.to_string());
    out.push("action".to_string());
    let chars = str_chars(action);
    let parts = split_whitespace(&chars);
    let ghost head = out@.map_values(|a: String| a@);
    let mut i: usize = 0;
    while i < parts.len()
        invariant
            i <= parts@.len(),
            views(parts@) == words(action@),
            head == seq!["-s"@, session_name@, "action"@],
            out@.map_values(|a: String| a@) == head + views(parts@).take(i as int),
        decreases parts@.len() - i,
    {
        let w = chars_to_string(&parts[i]);
        let ghost prev = out@;
        let ghost wv = w@;
        out.push(w);
        proof {
            assert(out@.map_values(|a: String| a@) =~= prev.map_values(|a: String| a@).push(wv));
            assert(views(parts@)[i as int] == parts@[i as int]@);
            assert(views(parts@).take(i + 1) =~= views(parts@).take(i as int).push(parts@[i as int]@));
            assert(out@.map_values(|a: String| a@) =~= head + views(parts@).take(i + 1));
        }
        i = i + 1;
    }
    assert(views(parts@).take(parts@.len() as int) =~= views(parts@));
    out
}

} // verus!
