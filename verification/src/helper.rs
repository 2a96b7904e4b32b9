//! The remote helper (`zlnd`) that the client installs and starts over SSH:
//! the platform probe, the version probe, the port file, and the commands
//! and paths involved.

use vstd::prelude::*;
use crate::text::{
    str_chars, chars_to_string, push_str, push_all, trim, trim_vec, lines, lines_vec, views, decimal,
    push_decimal,
};
use crate::kdl_tree::{opt_str, str_eq};
use crate::quote_anchor::{words, split_whitespace};
use crate::paths::{join_relative, join_relative_path};
use crate::text::{strip_cr, trim_start, trim_end, is_ws};
use crate::markdown_laws::{lemma_lines_append, lemma_lines_single};

verus! {

/// The platforms the helper is built for.
#[derive(PartialEq, Eq, Structural, Clone, Copy, Debug)]
pub enum RemotePlatform {
    LinuxX86_64,
    LinuxAarch64,
    MacosX86_64,
    MacosAarch64,
}

/// The helper binary's name.
pub open spec fn helper_name() -> Seq<char> {
    "zlnd"@
}

/// The Rust target triple of a platform.
pub open spec fn triple_of(p: RemotePlatform) -> Seq<char> {
    match p {
        RemotePlatform::LinuxX86_64 => "x86_64-unknown-linux-gnu"@,
        RemotePlatform::LinuxAarch64 => "aarch64-unknown-linux-gnu"@,
        RemotePlatform::MacosX86_64 => "x86_64-apple-darwin"@,
        RemotePlatform::MacosAarch64 => "aarch64-apple-darwin"@,
    }
}

impl RemotePlatform {
    /// The Rust target triple of this platform.
    pub fn target_triple(self) -> (r: &'static str)
        ensures
            r@ == triple_of(self),
    {
        match self {
            RemotePlatform::LinuxX86_64 => "x86_64-unknown-linux-gnu",
            RemotePlatform::LinuxAarch64 => "aarch64-unknown-linux-gnu",
            RemotePlatform::MacosX86_64 => "x86_64-apple-darwin",
            RemotePlatform::MacosAarch64 => "aarch64-apple-darwin",
        }
    }

    /// The name of the release asset for this platform: `zlnd-<triple>`.
    pub fn artifact_name(self) -> (r: String)
        ensures
            r@ == helper_name() + "-"@ + triple_of(self),
    {
        let mut out: Vec<char> = Vec::new();
        push_str(&mut out, "zlnd");
        push_str(&mut out, "-");
        push_str(&mut out, self.target_triple());
        chars_to_string(&out)
    }
}

// ---------------------------------------------------------------------------
// Platform probe
// ---------------------------------------------------------------------------

/// The trimmed non-empty lines among `ls`, in order.
pub open spec fn nonempty_trimmed(ls: Seq<Seq<char>>) -> Seq<Seq<char>>
    decreases ls.len(),
{
    if ls.len() == 0 {
        Seq::empty()
    } else {
        let rest = nonempty_trimmed(ls.drop_last());
        let t = trim(ls.last());
        if t.len() > 0 {
            rest.push(t)
        } else {
            rest
        }
    }
}

/// The platform that an `uname -s` / `uname -m` pair names.
pub open spec fn platform_of(os: Seq<char>, arch: Seq<char>) -> Option<RemotePlatform> {
    if os == "Linux"@ && arch == "x86_64"@ {
        Some(RemotePlatform::LinuxX86_64)
    } else if os == "Linux"@ && (arch == "aarch64"@ || arch == "arm64"@) {
        Some(RemotePlatform::LinuxAarch64)
    } else if os == "Darwin"@ && arch == "x86_64"@ {
        Some(RemotePlatform::MacosX86_64)
    } else if os == "Darwin"@ && (arch == "arm64"@ || arch == "aarch64"@) {
        Some(RemotePlatform::MacosAarch64)
    } else {
        None
    }
}

/// The message for a platform the helper is not built for.
pub open spec fn unsupported_message(os: Seq<char>, arch: Seq<char>) -> Seq<char> {
    "Unsupported remote platform: "@ + os + " "@ + arch
        + " (supported: Linux x86_64/aarch64, Darwin x86_64/arm64)"@
}

/// The platform that the output of `uname -s && uname -m` names: its first
/// two non-blank lines, trimmed.
pub open spec fn spec_parse_remote_platform(output: Seq<char>) -> Result<RemotePlatform, Seq<char>> {
    let ls = nonempty_trimmed(lines(output));
    if ls.len() == 0 {
        Err("Remote platform probe returned no OS"@)
    } else if ls.len() == 1 {
        Err("Remote platform probe returned no architecture"@)
    } else {
        match platform_of(ls[0], ls[1]) {
            Some(p) => Ok(p),
            None => Err(unsupported_message(ls[0], ls[1])),
        }
    }
}

fn platform_from(os: &str, arch: &str) -> (r: Option<RemotePlatform>)
    ensures
        r == platform_of(os@, arch@),
{
    if str_eq(os, "Linux") && str_eq(arch, "x86_64") {
        Some(RemotePlatform::LinuxX86_64)
    } else if str_eq(os, "Linux") && (str_eq(arch, "aarch64") || str_eq(arch, "arm64")) {
        Some(RemotePlatform::LinuxAarch64)
    } else if str_eq(os, "Darwin") && str_eq(arch, "x86_64") {
        Some(RemotePlatform::MacosX86_64)
    } else if str_eq(os, "Darwin") && (str_eq(arch, "arm64") || str_eq(arch, "aarch64")) {
        Some(RemotePlatform::MacosAarch64)
    } else {
        None
    }
}

/// Parse the output of `uname -s && uname -m` on the remote host.
pub fn parse_remote_platform(output: &str) -> (r: Result<RemotePlatform, String>)
    ensures
        match (r, spec_parse_remote_platform(output@)) {
            (Ok(p), Ok(q)) => p == q,
            (Err(m), Err(n)) => m@ == n,
            _ => false,
        },
{
    let chars = str_chars(output);
    let ls = lines_vec(&chars);
    let ghost lv = views(ls@);
    let mut found: Vec<Vec<char>> = Vec::new();
    let mut i: usize = 0;
    assert(views(found@) =~= Seq::<Seq<char>>::empty());
    while i < ls.len()
        invariant
            i <= ls@.len(),
            lv == views(ls@),
            views(found@) == nonempty_trimmed(lv.take(i as int)),
        decreases ls@.len() - i,
    {
        assert(lv.take(i + 1).drop_last() =~= lv.take(i as int));
        assert(lv[i as int] == ls@[i as int]@);
        let t = trim_vec(&ls[i]);
        if t.len() > 0 {
            let ghost before = views(found@);
            found.push(t);
            assert(views(found@) =~= before.push(trim(lv[i as int])));
        }
        i = i + 1;
    }
    assert(lv.take(lv.len() as int) =~= lv);
    if found.len() == 0 {
        return Err("Remote platform probe returned no OS".to_string());
    }
    if found.len() == 1 {
        return Err("Remote platform probe returned no architecture".to_string());
    }
    assert(views(found@)[0] == found@[0]@);
    assert(views(found@)[1] == found@[1]@);
    let os = chars_to_string(&found[0]);
    let arch = chars_to_string(&found[1]);
    match platform_from(os.as_str(), arch.as_str()) {
        Some(p) => Ok(p),
        None => {
            let mut msg: Vec<char> = Vec::new();
            push_str(&mut msg, "Unsupported remote platform: ");
            push_all(&mut msg, &found[0]);
            push_str(&mut msg, " ");
            push_all(&mut msg, &found[1]);
            push_str(&mut msg, " (supported: Linux x86_64/aarch64, Darwin x86_64/arm64)");
            Err(chars_to_string(&msg))
        },
    }
}

// ---------------------------------------------------------------------------
// Version probe
// ---------------------------------------------------------------------------

/// The index of the first word of `ws` from `i` on that starts with an ASCII digit.
pub open spec fn first_numeric_word(ws: Seq<Seq<char>>, i: int) -> Option<int>
    decreases ws.len() - i,
{
    if i < 0 || i >= ws.len() {
        None
    } else if ws[i].len() > 0 && '0' <= ws[i][0] && ws[i][0] <= '9' {
        Some(i)
    } else {
        first_numeric_word(ws, i + 1)
    }
}

/// The version in the output of `zlnd --version`: its first word that
/// starts with an ASCII digit.
pub open spec fn spec_parse_helper_version(output: Seq<char>) -> Option<Seq<char>> {
    match first_numeric_word(words(output), 0) {
        Some(k) => Some(words(output)[k]),
        None => None,
    }
}

/// Parse the version out of the output of `zlnd --version` (`zlnd 0.1.0`).
pub fn parse_helper_version(output: &str) -> (r: Option<String>)
    ensures
        opt_str(r) == spec_parse_helper_version(output@),
{
    let chars = str_chars(output);
    let ws = split_whitespace(&chars);
    let ghost wv = views(ws@);
    let mut i: usize = 0;
    while i < ws.len()
        invariant
            i <= ws@.len(),
            wv == views(ws@),
            wv == words(output@),
            first_numeric_word(wv, 0) == first_numeric_word(wv, i as int),
        decreases ws@.len() - i,
    {
        assert(wv[i as int] == ws@[i as int]@);
        let w = &ws[i];
        if w.len() > 0 && '0' <= w[0] && w[0] <= '9' {
            return Some(chars_to_string(w));
        }
        i = i + 1;
    }
    None
}

// ---------------------------------------------------------------------------
// Port file
// ---------------------------------------------------------------------------

/// Whether every character of `s` is an ASCII digit.
pub open spec fn all_digits(s: Seq<char>) -> bool {
    forall|i: int| 0 <= i < s.len() ==> '0' <= #[trigger] s[i] && s[i] <= '9'
}

/// The value of a string of ASCII digits.
pub open spec fn digits_value(s: Seq<char>) -> nat
    decreases s.len(),
{
    if s.len() == 0 {
        0
    } else {
        digits_value(s.drop_last()) * 10 + ((s.last() as nat) - ('0' as nat)) as nat
    }
}

/// `u16::from_str`: an optional `+`, then one or more ASCII digits whose
/// value fits in 16 bits.
pub open spec fn spec_parse_u16(s: Seq<char>) -> Option<u16> {
    let d = if s.len() > 0 && s[0] == '+' {
        s.drop_first()
    } else {
        s
    };
    if d.len() == 0 || !all_digits(d) || digits_value(d) > 65535 {
        None
    } else {
        Some(digits_value(d) as u16)
    }
}

pub(crate) proof fn lemma_digits_value_monotone(s: Seq<char>, i: int)
    requires
        0 <= i <= s.len(),
        all_digits(s),
    ensures
        digits_value(s.take(i)) <= digits_value(s),
    decreases s.len(),
{
    if i < s.len() {
        assert(s.drop_last().take(i) =~= s.take(i));
        lemma_digits_value_monotone(s.drop_last(), i);
    } else {
        assert(s.take(i) =~= s);
    }
}

/// `s.parse::<u16>()`.
pub fn parse_u16(s: &[char]) -> (r: Option<u16>)
    ensures
        r == spec_parse_u16(s@),
{
    let start: usize = if s.len() > 0 && s[0] == '+' {
        1
    } else {
        0
    };
    let ghost d = if s@.len() > 0 && s@[0] == '+' {
        s@.drop_first()
    } else {
        s@
    };
    assert(d =~= s@.skip(start as int));
    if start == s.len() {
        return None;
    }
    let mut value: u32 = 0;
    let mut i: usize = start;
    while i < s.len()
        invariant
            start <= i <= s@.len(),
            d == s@.skip(start as int),
            d == (if s@.len() > 0 && s@[0] == '+' {
                s@.drop_first()
            } else {
                s@
            }),
            all_digits(d.take(i - start)),
            value == digits_value(d.take(i - start)),
            value <= 65535,
        decreases s@.len() - i,
    {
        let c = s[i];
        if !('0' <= c && c <= '9') {
            assert(d[i - start] == c);
            assert(!all_digits(d));
            return None;
        }
        let dv: u32 = (c as u32) - ('0' as u32);
        assert(d.take(i - start + 1).drop_last() =~= d.take(i - start));
        assert(d.take(i - start + 1).last() == c);
        let next: u32 = value * 10 + dv;
        assert(digits_value(d.take(i - start + 1)) == next);
        if next > 65535 {
            proof {
                assert(all_digits(d.take(i - start + 1)));
                if all_digits(d) {
                    lemma_digits_value_monotone(d, i - start + 1);
                }
            }
            return None;
        }
        value = next;
        i = i + 1;
    }
    assert(d.take(i - start) =~= d);
    Some(value as u16)
}

/// The helper's port as the port file holds it, or `None`.
pub fn parse_port_file(output: &str) -> (r: Option<u16>)
    ensures
        r == spec_parse_u16(trim(output@)),
{
    let chars = str_chars(output);
    let t = trim_vec(&chars);
    parse_u16(&t)
}

// ---------------------------------------------------------------------------
// Commands, URLs and paths
// ---------------------------------------------------------------------------

/// The shell command that starts the helper unless it already runs; with
/// `force_restart`, a running helper is killed and its port file removed
/// first.
pub open spec fn spec_start_command(force_restart: bool) -> Seq<char> {
    let prefix = "mkdir -p ~/.local/state/zelland ~/bin && "@;
    let head = if force_restart {
        prefix
            + "if command -v pkill >/dev/null 2>&1; then pkill -u \"$USER\" -f \"$HOME/bin/zlnd\" >/dev/null 2>&1 || true; fi; rm -f ~/.local/state/zelland/zlnd.port;"@
    } else {
        prefix
    };
    head + " if command -v pgrep >/dev/null 2>&1 && pgrep -u \"$USER\" -f \"$HOME/bin/zlnd\" >/dev/null 2>&1; then exit 0; fi && nohup \"$HOME/bin/zlnd\" >\"$HOME/.local/state/zelland/zlnd.log\" 2>&1 </dev/null &"@
}

/// The shell command that starts the helper on the remote host.
pub fn start_command(force_restart: bool) -> (r: String)
    ensures
        r@ == spec_start_command(force_restart),
{
    let mut out: Vec<char> = Vec::new();
    push_str(&mut out, "mkdir -p ~/.local/state/zelland ~/bin && ");
    if force_restart {
        push_str(
            &mut out,
            "if command -v pkill >/dev/null 2>&1; then pkill -u \"$USER\" -f \"$HOME/bin/zlnd\" >/dev/null 2>&1 || true; fi; rm -f ~/.local/state/zelland/zlnd.port;",
        );
    }
    push_str(
        &mut out,
        " if command -v pgrep >/dev/null 2>&1 && pgrep -u \"$USER\" -f \"$HOME/bin/zlnd\" >/dev/null 2>&1; then exit 0; fi && nohup \"$HOME/bin/zlnd\" >\"$HOME/.local/state/zelland/zlnd.log\" 2>&1 </dev/null &",
    );
    assert(out@ =~= spec_start_command(force_restart));
    chars_to_string(&out)
}

/// The shell command that prints the helper's port file, or nothing.
pub fn port_probe_command() -> (r: String)
    ensures
        r@ == "cat ~/.local/state/zelland/zlnd.port 2>/dev/null || true"@,
{
    "cat ~/.local/state/zelland/zlnd.port 2>/dev/null || true".to_string()
}

/// Where a new helper binary is uploaded before it is moved into place.
pub open spec fn upload_path() -> Seq<char> {
    "~/.local/state/zelland/zlnd.upload"@
}

/// The shell command that makes the uploaded helper executable and moves it
/// to `~/bin/zlnd`.
pub fn install_command() -> (r: String)
    ensures
        r@ == "chmod 755 "@ + upload_path() + " && mv "@ + upload_path() + " ~/bin/zlnd"@,
{
    let mut out: Vec<char> = Vec::new();
    push_str(&mut out, "chmod 755 ");
    push_str(&mut out, "~/.local/state/zelland/zlnd.upload");
    push_str(&mut out, " && mv ");
    push_str(&mut out, "~/.local/state/zelland/zlnd.upload");
    push_str(&mut out, " ~/bin/zlnd");
    chars_to_string(&out)
}

/// Whether the remote helper must be (re)installed: its version is not `expected`.
pub fn needs_install(remote_version: Option<&str>, expected: &str) -> (r: bool)
    ensures
        r == !(remote_version matches Some(v) && v@ == expected@),
{
    match remote_version {
        Some(v) => !str_eq(v, expected),
        None => true,
    }
}

/// The helper's version endpoint on `host`.
pub fn helper_version_url(host: &str, port: u16) -> (r: String)
    ensures
        r@ == "http://"@ + host@ + ":"@ + decimal(port as nat) + "/api/v1/meta/version"@,
{
    let mut out: Vec<char> = Vec::new();
    push_str(&mut out, "http://");
    push_str(&mut out, host);
    push_str(&mut out, ":");
    push_decimal(&mut out, port as u64);
    push_str(&mut out, "/api/v1/meta/version");
    chars_to_string(&out)
}

/// The repository the helper's releases come from: the one configured at
/// build time, or `njreid/zelland`.
pub fn helper_repository(configured: Option<&str>) -> (r: String)
    ensures
        r@ == match configured {
            Some(c) => c@,
            None => "njreid/zelland"@,
        },
{
    match configured {
        Some(c) => c.to_string(),
        None => "njreid/zelland".to_string(),
    }
}

/// The download URL of the helper release asset for `platform`.
pub fn helper_download_url(repository: &str, version: &str, platform: RemotePlatform) -> (r: String)
    ensures
        r@ == "https://github.com/"@ + repository@ + "/releases/download/v"@ + version@ + "/"@
            + helper_name() + "-"@ + triple_of(platform),
{
    let mut out: Vec<char> = Vec::new();
    push_str(&mut out, "https://github.com/");
    push_str(&mut out, repository);
    push_str(&mut out, "/releases/download/v");
    push_str(&mut out, version);
    push_str(&mut out, "/");
    let a = platform.artifact_name();
    push_str(&mut out, a.as_str());
    chars_to_string(&out)
}

/// The target triple of the local machine, from `std::env::consts::OS` and
/// `std::env::consts::ARCH`.
pub open spec fn local_target_of(os: Seq<char>, arch: Seq<char>) -> Option<Seq<char>> {
    if os == "linux"@ && arch == "x86_64"@ {
        Some("x86_64-unknown-linux-gnu"@)
    } else if os == "linux"@ && arch == "aarch64"@ {
        Some("aarch64-unknown-linux-gnu"@)
    } else if os == "macos"@ && arch == "x86_64"@ {
        Some("x86_64-apple-darwin"@)
    } else if os == "macos"@ && arch == "aarch64"@ {
        Some("aarch64-apple-darwin"@)
    } else {
        None
    }
}

/// The target triple of the local machine, given its OS and architecture.
pub fn local_platform_target(os: &str, arch: &str) -> (r: Option<&'static str>)
    ensures
        match r {
            Some(t) => local_target_of(os@, arch@) == Some(t@),
            None => local_target_of(os@, arch@) is None,
        },
{
    if str_eq(os, "linux") && str_eq(arch, "x86_64") {
        Some("x86_64-unknown-linux-gnu")
    } else if str_eq(os, "linux") && str_eq(arch, "aarch64") {
        Some("aarch64-unknown-linux-gnu")
    } else if str_eq(os, "macos") && str_eq(arch, "x86_64") {
        Some("x86_64-apple-darwin")
    } else if str_eq(os, "macos") && str_eq(arch, "aarch64") {
        Some("aarch64-apple-darwin")
    } else {
        None
    }
}

/// Where a locally built helper would be, for a build of the client in
/// `manifest_dir`: only when the local machine is `platform` itself.
pub fn local_dev_helper_path(manifest_dir: &str, platform: RemotePlatform, local_target: Option<&str>) -> (r:
    Option<String>)
    ensures
        match local_target {
            Some(t) => if t@ == triple_of(platform) {
                r matches Some(p) && p@ == join_relative(
                    join_relative(
                        join_relative(join_relative(join_relative(manifest_dir@, ".."@), "daemon-rs"@), "target"@),
                        "release"@,
                    ),
                    helper_name(),
                )
            } else {
                r is None
            },
            None => r is None,
        },
{
    match local_target {
        Some(t) => if str_eq(t, platform.target_triple()) {
            let a = join_relative_path(manifest_dir, "..");
            let b = join_relative_path(a.as_str(), "daemon-rs");
            let c = join_relative_path(b.as_str(), "target");
            let d = join_relative_path(c.as_str(), "release");
            Some(join_relative_path(d.as_str(), "zlnd"))
        } else {
            None
        },
        None => None,
    }
}

/// Where a downloaded helper is cached: `<tmp>/zelland-helper-cache/<version>/zlnd-<triple>`.
pub fn helper_cache_path(temp_dir: &str, version: &str, platform: RemotePlatform) -> (r: String)
    ensures
        r@ == join_relative(
            join_relative(join_relative(temp_dir@, "zelland-helper-cache"@), version@),
            helper_name() + "-"@ + triple_of(platform),
        ),
{
    let a = join_relative_path(temp_dir, "zelland-helper-cache");
    let b = join_relative_path(a.as_str(), version);
    let name = platform.artifact_name();
    join_relative_path(b.as_str(), name.as_str())
}

// ---------------------------------------------------------------------------
// Laws of the platform probe
// ---------------------------------------------------------------------------

/// The Rust target triple of a build for `uname -s` = `os` and
/// `uname -m` = `arch`: the architecture (`arm64` is called `aarch64`) and
/// then the system.
pub open spec fn expected_triple(os: Seq<char>, arch: Seq<char>) -> Seq<char> {
    (if arch == "x86_64"@ {
        "x86_64"@
    } else {
        "aarch64"@
    }) + (if os == "Linux"@ {
        "-unknown-linux-gnu"@
    } else {
        "-apple-darwin"@
    })
}

/// One of the names that `uname` reports for a supported system or architecture.
pub open spec fn is_supported_name(w: Seq<char>) -> bool {
    w == "Linux"@ || w == "Darwin"@ || w == "x86_64"@ || w == "aarch64"@ || w == "arm64"@
}

proof fn lemma_supported_name(w: Seq<char>)
    requires
        is_supported_name(w),
    ensures
        w.len() > 0,
        forall|j: int| 0 <= j < w.len() ==> #[trigger] w[j] != '\n',
        strip_cr(w) == w,
        trim_start(trim_end(w)) == w,
{
    reveal_strlit("Linux");
    reveal_strlit("Darwin");
    reveal_strlit("x86_64");
    reveal_strlit("aarch64");
    reveal_strlit("arm64");
    if w == "Linux"@ {
        assert(w =~= seq!['L', 'i', 'n', 'u', 'x']);
    } else if w == "Darwin"@ {
        assert(w =~= seq!['D', 'a', 'r', 'w', 'i', 'n']);
    } else if w == "x86_64"@ {
        assert(w =~= seq!['x', '8', '6', '_', '6', '4']);
    } else if w == "aarch64"@ {
        assert(w =~= seq!['a', 'a', 'r', 'c', 'h', '6', '4']);
    } else {
        assert(w =~= seq!['a', 'r', 'm', '6', '4']);
    }
    assert(!is_ws(w.last()));
    assert(trim_end(w) == w);
    assert(!is_ws(w[0]));
}

/// Every platform that the supported list names is accepted: for `os` in
/// {Linux, Darwin} and `arch` in {x86_64, aarch64, arm64}, the output
/// `os\narch\n` of `uname -s && uname -m` parses to a platform whose target
/// triple names that system and architecture (Linux aarch64 is
/// `aarch64-unknown-linux-gnu`).
pub proof fn law_supported_platforms_accepted(os: Seq<char>, arch: Seq<char>)
    requires
        os == "Linux"@ || os == "Darwin"@,
        arch == "x86_64"@ || arch == "aarch64"@ || arch == "arm64"@,
    ensures
        spec_parse_remote_platform(os + "\n"@ + arch + "\n"@) matches Ok(p) && triple_of(p)
            == expected_triple(os, arch),
{
    reveal_strlit("\n");
    reveal_strlit("Linux");
    reveal_strlit("Darwin");
    reveal_strlit("x86_64");
    reveal_strlit("aarch64");
    reveal_strlit("arm64");
    reveal_strlit("-unknown-linux-gnu");
    reveal_strlit("-apple-darwin");
    reveal_strlit("x86_64-unknown-linux-gnu");
    reveal_strlit("aarch64-unknown-linux-gnu");
    reveal_strlit("x86_64-apple-darwin");
    reveal_strlit("aarch64-apple-darwin");
    assert("Linux"@.len() == 5 && "Darwin"@.len() == 6);
    assert("x86_64"@.len() == 6 && "aarch64"@.len() == 7 && "arm64"@.len() == 5);
    assert("x86_64"@[0] != "arm64"@[0]);
    assert("Linux"@[0] != "Darwin"@[0]);
    lemma_supported_name(os);
    lemma_supported_name(arch);
    let a = os + seq!['\n'];
    let b = arch + seq!['\n'];
    assert("\n"@ =~= seq!['\n']);
    assert(os + "\n"@ + arch + "\n"@ =~= a + b);
    lemma_lines_single(os);
    lemma_lines_single(arch);
    lemma_lines_append(a, b);
    let ls = lines(a + b);
    assert(ls =~= seq![os, arch]);
    assert(seq![os, arch].drop_last() =~= seq![os]);
    assert(seq![os].drop_last() =~= Seq::<Seq<char>>::empty());
    assert(trim(os) == os);
    assert(trim(arch) == arch);
    let nt = nonempty_trimmed(ls);
    assert(seq![os].last() == os);
    assert(seq![os, arch].last() == arch);
    assert(nonempty_trimmed(Seq::<Seq<char>>::empty()) =~= Seq::<Seq<char>>::empty());
    assert(nonempty_trimmed(seq![os]) =~= Seq::<Seq<char>>::empty().push(os));
    assert(nonempty_trimmed(seq![os]) =~= seq![os]);
    assert(nt =~= seq![os, arch]);
    let p = platform_of(os, arch)->0;
    assert(platform_of(os, arch) is Some);
    assert(triple_of(p) =~= expected_triple(os, arch));
}

} // verus!
