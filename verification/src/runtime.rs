//! Control-process supervision state: the captured core log ring (ANSI
//! stripping, level classification, bounded capacity), the RPC endpoint and
//! the mirrored instance state, plus the text decisions around the daemon's
//! ready line and orphan detection. The child process itself is driven by
//! the shell around the library.

use vstd::prelude::*;
use crate::json;
use crate::text::{concat, from_chars, is_whitespace, is_ws, lemma_lead_ws_unique, range_eq, to_chars, trim, trim_bounds, trim_start};

verus! {

/// Upper bound on captured core log lines.
pub const LOG_CAP: usize = 1000;

pub open spec fn is_ascii_alpha(c: char) -> bool {
    ('a' <= c && c <= 'z') || ('A' <= c && c <= 'Z')
}

/// Index of the first ASCII letter in `s`, or `s.len()`.
pub open spec fn first_alpha(s: Seq<char>) -> nat
    decreases s.len(),
{
    if s.len() == 0 {
        0
    } else if is_ascii_alpha(s[0]) {
        0
    } else {
        1 + first_alpha(s.drop_first())
    }
}

/// `s` with every ANSI CSI sequence (`ESC [ ... letter`) removed; a lone
/// `ESC` not followed by `[` is dropped by itself, and an unterminated
/// sequence swallows the rest of the line.
pub open spec fn strip_ansi_spec(s: Seq<char>) -> Seq<char>
    decreases s.len(),
{
    if s.len() == 0 {
        seq![]
    } else if s[0] == '\u{1b}' {
        if s.len() > 1 && s[1] == '[' {
            let rest = s.skip(2);
            let k = first_alpha(rest);
            if k < rest.len() {
                strip_ansi_spec(rest.skip(k + 1int))
            } else {
                seq![]
            }
        } else {
            strip_ansi_spec(s.drop_first())
        }
    } else {
        seq![s[0]] + strip_ansi_spec(s.drop_first())
    }
}

proof fn lemma_first_alpha(s: Seq<char>, k: int)
    requires
        0 <= k <= s.len(),
        forall|i: int| 0 <= i < k ==> !is_ascii_alpha(#[trigger] s[i]),
        k < s.len() ==> is_ascii_alpha(s[k]),
    ensures
        first_alpha(s) == k,
    decreases s.len(),
{
    if k > 0 {
        assert forall|i: int| 0 <= i < k - 1 implies !is_ascii_alpha(#[trigger] s.drop_first()[i]) by {
            assert(s.drop_first()[i] == s[i + 1]);
        }
        assert(!is_ascii_alpha(s[0]));
        lemma_first_alpha(s.drop_first(), k - 1);
    }
}

/// Strips ANSI CSI escape sequences (terminal colours) from a log line.
pub fn strip_ansi(line: &str) -> (r: String)
    ensures
        r@ == strip_ansi_spec(line@),
{
    let s = to_chars(line);
    let n = s.len();
    let mut out: Vec<char> = Vec::new();
    let mut i: usize = 0;
    assert(s@.skip(0) =~= s@);
    assert(out@ + strip_ansi_spec(s@) =~= strip_ansi_spec(s@));
    while i < n
        invariant
            n == s@.len(),
            s@ == line@,
            i <= n,
            strip_ansi_spec(s@) == out@ + strip_ansi_spec(s@.skip(i as int)),
        decreases n - i,
    {
        let ghost t = s@.skip(i as int);
        if s[i] == '\u{1b}' {
            if i + 1 < n && s[i + 1] == '[' {
                let mut j = i + 2;
                while j < n && !(('a' <= s[j] && s[j] <= 'z') || ('A' <= s[j] && s[j] <= 'Z'))
                    invariant
                        i + 2 <= j <= n == s@.len(),
                        forall|q: int| i + 2 <= q < j ==> !is_ascii_alpha(#[trigger] s@[q]),
                    decreases n - j,
                {
                    j = j + 1;
                }
                proof {
                    let rest = t.skip(2);
                    assert(rest =~= s@.skip(i + 2));
                    assert forall|q: int| 0 <= q < j - (i + 2) implies !is_ascii_alpha(
                        #[trigger] rest[q],
                    ) by {
                        assert(rest[q] == s@[i + 2 + q]);
                    }
                    if j - (i + 2) < rest.len() {
                        assert(rest[j - (i + 2)] == s@[j as int]);
                    }
                    lemma_first_alpha(rest, j - (i + 2));
                    if j < n {
                        assert(rest.skip(j - (i + 2) + 1) =~= s@.skip(j + 1));
                    } else {
                        assert(s@.skip(n as int) =~= Seq::<char>::empty());
                    }
                }
                if j < n {
                    i = j + 1;
                } else {
                    i = n;
                }
            } else {
                assert(t.drop_first() =~= s@.skip(i + 1));
                i = i + 1;
            }
        } else {
            assert(t.drop_first() =~= s@.skip(i + 1));
            proof {
                assert(out@.push(s@[i as int]) + strip_ansi_spec(s@.skip(i + 1)) =~= out@ + (seq![
                    s@[i as int],
                ] + strip_ansi_spec(s@.skip(i + 1))));
            }
            out.push(s[i]);
            i = i + 1;
        }
    }
    assert(s@.skip(n as int) =~= Seq::<char>::empty());
    assert(out@ + Seq::<char>::empty() =~= out@);
    from_chars(&out)
}

/// Index of the first `[` or space in `s`, or `s.len()`.
pub open spec fn first_token_end(s: Seq<char>) -> nat
    decreases s.len(),
{
    if s.len() == 0 {
        0
    } else if s[0] == '[' || s[0] == ' ' {
        0
    } else {
        1 + first_token_end(s.drop_first())
    }
}

/// The leading level token of a sing-box log line ("ERROR[0000] ...").
pub open spec fn level_token(line: Seq<char>) -> Seq<char> {
    let t = trim_start(line);
    t.take(first_token_end(t) as int)
}

/// Level class of a log line: error | warn | info | debug | other.
pub open spec fn level_spec(line: Seq<char>) -> Seq<char> {
    let tok = level_token(line);
    if tok == "ERROR"@ || tok == "FATAL"@ || tok == "PANIC"@ {
        "error"@
    } else if tok == "WARN"@ {
        "warn"@
    } else if tok == "INFO"@ {
        "info"@
    } else if tok == "DEBUG"@ {
        "debug"@
    } else {
        "other"@
    }
}

proof fn lemma_first_token_end(s: Seq<char>, k: int)
    requires
        0 <= k <= s.len(),
        forall|i: int| 0 <= i < k ==> #[trigger] s[i] != '[' && s[i] != ' ',
        k < s.len() ==> s[k] == '[' || s[k] == ' ',
    ensures
        first_token_end(s) == k,
    decreases s.len(),
{
    if k > 0 {
        assert forall|i: int| 0 <= i < k - 1 implies #[trigger] s.drop_first()[i] != '['
            && s.drop_first()[i] != ' ' by {
            assert(s.drop_first()[i] == s[i + 1]);
        }
        assert(s[0] != '[' && s[0] != ' ');
        lemma_first_token_end(s.drop_first(), k - 1);
    }
}

/// Classifies the leading sing-box log level token of a line.
pub fn level_of(line: &str) -> (r: &'static str)
    ensures
        r@ == level_spec(line@),
{
    let s = to_chars(line);
    let n = s.len();
    let mut a: usize = 0;
    while a < n && is_whitespace(s[a])
        invariant
            a <= n == s@.len(),
            forall|q: int| 0 <= q < a ==> is_ws(#[trigger] s@[q]),
        decreases n - a,
    {
        a = a + 1;
    }
    let mut b = a;
    while b < n && s[b] != '[' && s[b] != ' '
        invariant
            a <= b <= n == s@.len(),
            forall|q: int| a <= q < b ==> #[trigger] s@[q] != '[' && s@[q] != ' ',
        decreases n - b,
    {
        b = b + 1;
    }
    proof {
        lemma_lead_ws_unique(s@, a as int);
        let t = trim_start(s@);
        assert(t =~= s@.skip(a as int));
        assert forall|q: int| 0 <= q < b - a implies #[trigger] t[q] != '[' && t[q] != ' ' by {
            assert(t[q] == s@[a + q]);
        }
        if b - a < t.len() {
            assert(t[b - a] == s@[b as int]);
        }
        lemma_first_token_end(t, b - a);
        assert(level_token(line@) =~= s@.subrange(a as int, b as int));
    }
    if range_eq(&s, a, b, "ERROR") || range_eq(&s, a, b, "FATAL") || range_eq(&s, a, b, "PANIC") {
        "error"
    } else if range_eq(&s, a, b, "WARN") {
        "warn"
    } else if range_eq(&s, a, b, "INFO") {
        "info"
    } else if range_eq(&s, a, b, "DEBUG") {
        "debug"
    } else {
        "other"
    }
}

/// One captured core log line.
#[derive(Clone, Debug)]
pub struct LogEntry {
    /// error | warn | info | debug | other
    pub level: String,
    pub line: String,
}

impl LogEntry {
    /// A copy equal to `self`.
    pub fn duplicate(&self) -> (r: LogEntry)
        ensures
            r == *self,
    {
        LogEntry { level: self.level.clone(), line: self.line.clone() }
    }
}

/// A ready-to-use RPC endpoint (base URL + bearer token).
#[derive(Clone, Debug)]
pub struct RpcConn {
    pub url: String,
    pub token: String,
}

/// The entry a raw stderr line becomes in the log ring: ANSI stripped,
/// blank lines dropped, level classified.
pub open spec fn log_entry_of(raw: Seq<char>) -> Option<(Seq<char>, Seq<char>)> {
    let line = strip_ansi_spec(raw);
    if trim(line).len() == 0 {
        None
    } else {
        Some((level_spec(line), line))
    }
}

/// Appending an entry to a ring of capacity `LOG_CAP`: the oldest entry is
/// evicted first when full.
pub open spec fn ring_push<T>(ring: Seq<T>, e: T) -> Seq<T> {
    if ring.len() >= LOG_CAP {
        ring.drop_first().push(e)
    } else {
        ring.push(e)
    }
}

/// The last `limit` entries of `ring` (all of them when it holds fewer;
/// none for a limit of 0), oldest first.
pub open spec fn ring_tail<T>(ring: Seq<T>, limit: nat) -> Seq<T> {
    if ring.len() <= limit {
        ring
    } else {
        ring.skip(ring.len() - limit)
    }
}

/// Supervision state of the `nekos-core serve` control process: its RPC
/// endpoint once up, the bearer token, the mirrored instance state and the
/// captured log ring.
pub struct Daemon {
    url: Option<String>,
    token: String,
    running: bool,
    started_at: Option<String>,
    logs: Vec<LogEntry>,
}

impl Daemon {
    /// The endpoint URL, when the daemon is up.
    pub closed spec fn url_spec(&self) -> Option<String> {
        self.url
    }

    pub closed spec fn token_spec(&self) -> String {
        self.token
    }

    pub closed spec fn running_spec(&self) -> bool {
        self.running
    }

    pub closed spec fn started_at_spec(&self) -> Option<String> {
        self.started_at
    }

    /// The captured log lines, oldest first.
    pub closed spec fn logs_spec(&self) -> Seq<LogEntry> {
        self.logs@
    }

    /// The log ring never holds more than `LOG_CAP` lines.
    pub closed spec fn wf(&self) -> bool {
        self.logs@.len() <= LOG_CAP
    }

    pub fn new(token: String) -> (d: Daemon)
        ensures
            d.wf(),
            d.url_spec() is None,
            d.token_spec() == token,
            !d.running_spec(),
            d.started_at_spec() is None,
            d.logs_spec() == Seq::<LogEntry>::empty(),
    {
        Daemon { url: None, token, running: false, started_at: None, logs: Vec::new() }
    }

    /// The cached endpoint (spawning the daemon is needed when `None`).
    pub fn cached_conn(&self) -> (r: Option<RpcConn>)
        ensures
            match r {
                Some(c) => self.url_spec() == Some(c.url) && c.token == self.token_spec(),
                None => self.url_spec() is None,
            },
    {
        match &self.url {
            Some(u) => Some(RpcConn { url: u.clone(), token: self.token.clone() }),
            None => None,
        }
    }

    /// The bearer token the daemon is started with.
    pub fn token(&self) -> (r: String)
        ensures
            r == self.token_spec(),
    {
        self.token.clone()
    }

    /// Records a freshly spawned daemon listening at `url`; the instance
    /// inside it is not running yet.
    pub fn set_endpoint(&mut self, url: String) -> (c: RpcConn)
        ensures
            final(self).url_spec() == Some(url),
            final(self).token_spec() == old(self).token_spec(),
            !final(self).running_spec(),
            final(self).started_at_spec() is None,
            final(self).logs_spec() == old(self).logs_spec(),
            final(self).wf() == old(self).wf(),
            c.url == url,
            c.token == old(self).token_spec(),
    {
        let c = RpcConn { url: url.clone(), token: self.token.clone() };
        self.url = Some(url);
        self.running = false;
        self.started_at = None;
        c
    }

    /// Mirrored instance state: (running, started_at).
    pub fn instance(&self) -> (r: (bool, Option<String>))
        ensures
            r == (self.running_spec(), self.started_at_spec()),
    {
        (self.running, self.started_at.clone())
    }

    /// Drops the endpoint and the instance mirror (the caller kills any
    /// leftover child), so the next call respawns the daemon.
    pub fn invalidate(&mut self)
        ensures
            final(self).url_spec() is None,
            !final(self).running_spec(),
            final(self).started_at_spec() is None,
            final(self).token_spec() == old(self).token_spec(),
            final(self).logs_spec() == old(self).logs_spec(),
            final(self).wf() == old(self).wf(),
    {
        self.url = None;
        self.running = false;
        self.started_at = None;
    }

    /// Updates the mirrored instance state from a core.status/core.start
    /// result.
    pub fn set_instance(&mut self, running: bool, started_at: Option<String>)
        ensures
            final(self).running_spec() == running,
            final(self).started_at_spec() == started_at,
            final(self).url_spec() == old(self).url_spec(),
            final(self).token_spec() == old(self).token_spec(),
            final(self).logs_spec() == old(self).logs_spec(),
            final(self).wf() == old(self).wf(),
    {
        self.running = running;
        self.started_at = started_at;
    }

    /// Reports the mirrored instance state; a daemon whose process has
    /// exited is forgotten first.
    pub fn status(&mut self, exited: bool) -> (r: (bool, Option<String>))
        ensures
            exited ==> final(self).url_spec() is None && !final(self).running_spec()
                && final(self).started_at_spec() is None,
            !exited ==> final(self).url_spec() == old(self).url_spec() && final(self).running_spec()
                == old(self).running_spec() && final(self).started_at_spec()
                == old(self).started_at_spec(),
            r == (final(self).running_spec(), final(self).started_at_spec()),
            final(self).token_spec() == old(self).token_spec(),
            final(self).logs_spec() == old(self).logs_spec(),
            final(self).wf() == old(self).wf(),
    {
        if exited {
            self.invalidate();
        }
        self.instance()
    }

    /// App shutdown: the instance dies with the process.
    pub fn shutdown(&mut self)
        ensures
            final(self).url_spec() is None,
            !final(self).running_spec(),
            final(self).started_at_spec() is None,
            final(self).token_spec() == old(self).token_spec(),
            final(self).logs_spec() == old(self).logs_spec(),
            final(self).wf() == old(self).wf(),
    {
        self.invalidate();
    }

    /// Captures one raw stderr line of the daemon.
    pub fn push_log(&mut self, raw: &str)
        requires
            old(self).wf(),
        ensures
            final(self).wf(),
            match log_entry_of(raw@) {
                None => final(self).logs_spec() == old(self).logs_spec(),
                Some((level, line)) => {
                    &&& final(self).logs_spec() == ring_push(
                        old(self).logs_spec(),
                        final(self).logs_spec().last(),
                    )
                    &&& final(self).logs_spec().last().level@ == level
                    &&& final(self).logs_spec().last().line@ == line
                },
            },
            final(self).url_spec() == old(self).url_spec(),
            final(self).token_spec() == old(self).token_spec(),
            final(self).running_spec() == old(self).running_spec(),
            final(self).started_at_spec() == old(self).started_at_spec(),
    {
        let line = strip_ansi(raw);
        let cs = to_chars(line.as_str());
        let (lo, hi) = trim_bounds(&cs, 0, cs.len());
        assert(cs@.subrange(0, cs@.len() as int) =~= cs@);
        if lo == hi {
            assert(log_entry_of(raw@) is None);
            return;
        }
        assert(trim(line@).len() > 0);
        let level = level_of(line.as_str());
        let e = LogEntry { level: String::from_str(level), line };
        let ghost ge = e;
        if self.logs.len() >= LOG_CAP {
            self.logs.remove(0);
        }
        self.logs.push(e);
        assert(self.logs@ =~= ring_push(old(self).logs@, ge));
        assert(ge.level@ == level_spec(strip_ansi_spec(raw@)));
        assert(ge.line@ == strip_ansi_spec(raw@));
        assert(log_entry_of(raw@) == Some((ge.level@, ge.line@)));
    }

    /// The last `limit` captured lines (all when fewer were captured, none
    /// for a limit of 0), oldest first.
    pub fn tail_logs(&self, limit: usize) -> (r: Vec<LogEntry>)
        ensures
            r@ == ring_tail(self.logs_spec(), limit as nat),
    {
        let n = self.logs.len();
        let skip = if n > limit {
            n - limit
        } else {
            0
        };
        let mut out: Vec<LogEntry> = Vec::new();
        let mut i = skip;
        while i < n
            invariant
                n == self.logs@.len(),
                skip <= i <= n,
                out@ == self.logs@.subrange(skip as int, i as int),
            decreases n - i,
        {
            out.push(self.logs[i].duplicate());
            i = i + 1;
            assert(out@ =~= self.logs@.subrange(skip as int, i as int));
        }
        assert(self.logs@.subrange(skip as int, n as int) =~= ring_tail(self.logs@, limit as nat));
        out
    }
}

/// Arguments that start the `nekos-core serve` control process: a loopback
/// RPC listener on a free port, the bearer token and, where the platform
/// has one, the pid the daemon watches so that it exits with its parent.
pub fn serve_args(token: &str, parent_pid: Option<u32>) -> (r: Vec<String>)
    ensures
        crate::text::views(r@) == seq!["serve"@, "--rpc"@, "127.0.0.1:0"@, "--token"@, token@] + match parent_pid {
            Some(p) => seq!["--parent-pid"@, crate::subscribe::dec(p as u64)],
            None => Seq::<Seq<char>>::empty(),
        },
{
    let mut v: Vec<String> = Vec::new();
    v.push(String::from_str("serve"));
    v.push(String::from_str("--rpc"));
    v.push(String::from_str("127.0.0.1:0"));
    v.push(String::from_str("--token"));
    v.push(String::from_str(token));
    if let Some(p) = parent_pid {
        v.push(String::from_str("--parent-pid"));
        v.push(crate::text::u64_to_string(p as u64));
    }
    assert(crate::text::views(v@) =~= seq!["serve"@, "--rpc"@, "127.0.0.1:0"@, "--token"@, token@] + match parent_pid {
        Some(p) => seq!["--parent-pid"@, crate::subscribe::dec(p as u64)],
        None => Seq::<Seq<char>>::empty(),
    });
    v
}

/// Error when the core binary cannot be started.
pub fn spawn_failed(bin: &str, err: &str) -> (r: String)
    ensures
        r@ == "cannot run core `"@ + bin@ + "` ("@ + err@
            + "); build it with: ./build.sh (or: cd core && go build -tags with_utls,with_grpc -o bin/nekos-core ./cmd/nekos-core)"@,
{
    let r = concat(String::from_str("cannot run core `"), bin);
    let r = concat(r, "` (");
    let r = concat(r, err);
    concat(
        r,
        "); build it with: ./build.sh (or: cd core && go build -tags with_utls,with_grpc -o bin/nekos-core ./cmd/nekos-core)",
    )
}

/// Error when the daemon did not announce its listener; `stderr` is what
/// it printed there.
pub fn serve_failed(detail: &str, stderr: &str) -> (r: String)
    ensures
        r@ == "core serve failed: "@ + detail@ + " ("@ + trim(stderr@) + ")"@,
{
    let r = concat(String::from_str("core serve failed: "), detail);
    let r = concat(r, " (");
    let r = concat(r, crate::commands::trimmed(stderr).as_str());
    concat(r, ")")
}

/// Error when the ready line names no RPC address.
pub fn unexpected_ready(ready: &str, stderr: &str) -> (r: String)
    ensures
        r@ == "core serve: unexpected ready line "@ + crate::subscribe::debug_str(ready@) + " ("@ + trim(
            stderr@,
        ) + ")"@,
{
    let r = concat(
        String::from_str("core serve: unexpected ready line "),
        crate::subscribe::debug_quoted(ready).as_str(),
    );
    let r = concat(r, " (");
    let r = concat(r, crate::commands::trimmed(stderr).as_str());
    concat(r, ")")
}

/// The RPC listen address announced by the daemon's ready line
/// (`{"rpc": "127.0.0.1:PORT"}`), as a base URL.
pub fn ready_url(ready: &str) -> (r: Option<String>)
    ensures
        match r {
            Some(u) => exists|a: Seq<char>|
                json::json_str_field(ready@, "rpc"@) == Some(a) && u@ == "http://"@ + a,
            None => json::json_str_field(ready@, "rpc"@) is None,
        },
{
    match json::str_field(ready, "rpc") {
        Some(addr) => Some(concat(String::from_str("http://"), addr.as_str())),
        None => None,
    }
}

/// What the daemon printed on stdout before it became ready, trimmed; an
/// empty announcement means it exited first.
pub fn ready_line(collected: &str) -> (r: Result<String, String>)
    ensures
        trim(collected@).len() > 0 ==> r is Ok && r->Ok_0@ == trim(collected@),
        trim(collected@).len() == 0 ==> r is Err && r->Err_0@
            == "core exited before becoming ready"@,
{
    let cs = to_chars(collected);
    let (lo, hi) = trim_bounds(&cs, 0, cs.len());
    assert(cs@.subrange(0, cs@.len() as int) =~= cs@);
    if lo == hi {
        return Err(String::from_str("core exited before becoming ready"));
    }
    let mut v: Vec<char> = Vec::new();
    let mut i = lo;
    while i < hi
        invariant
            lo <= i <= hi <= cs@.len(),
            v@ == cs@.subrange(lo as int, i as int),
        decreases hi - i,
    {
        v.push(cs[i]);
        i = i + 1;
        assert(v@ =~= cs@.subrange(lo as int, i as int));
    }
    Ok(from_chars(&v))
}

/// Index of the first NUL byte in `s`, or `s.len()`.
pub open spec fn first_nul(s: Seq<u8>) -> nat
    decreases s.len(),
{
    if s.len() == 0 {
        0
    } else if s[0] == 0 {
        0
    } else {
        1 + first_nul(s.drop_first())
    }
}

/// An argument of a NUL-separated command line starts at `i`.
pub open spec fn arg_start(raw: Seq<u8>, i: int) -> bool {
    0 <= i <= raw.len() && (i == 0 || raw[i - 1] == 0)
}

/// The argument that starts at `i`.
pub open spec fn arg_at(raw: Seq<u8>, i: int) -> Seq<u8> {
    raw.subrange(i, i + first_nul(raw.skip(i)))
}

pub open spec fn serve_bytes() -> Seq<u8> {
    seq![115u8, 101u8, 114u8, 118u8, 101u8]
}

/// `nekos-core`
pub open spec fn core_name_bytes() -> Seq<u8> {
    seq![110u8, 101u8, 107u8, 111u8, 115u8, 45u8, 99u8, 111u8, 114u8, 101u8]
}

pub open spec fn is_serve_arg(raw: Seq<u8>, i: int) -> bool {
    arg_start(raw, i) && arg_at(raw, i) == serve_bytes()
}

pub open spec fn is_core_arg(raw: Seq<u8>, i: int) -> bool {
    &&& arg_start(raw, i)
    &&& arg_at(raw, i).len() >= 10
    &&& arg_at(raw, i).skip(arg_at(raw, i).len() - 10) == core_name_bytes()
}

/// A `/proc/<pid>/cmdline` that belongs to a `nekos-core serve` process:
/// some NUL-separated argument ends with `nekos-core` and some argument is
/// exactly `serve`.
pub open spec fn is_core_serve_spec(raw: Seq<u8>) -> bool {
    (exists|i: int| #[trigger] is_core_arg(raw, i)) && (exists|i: int| #[trigger] is_serve_arg(raw, i))
}

proof fn lemma_first_nul(s: Seq<u8>, k: int)
    requires
        0 <= k <= s.len(),
        forall|q: int| 0 <= q < k ==> s[q] != 0,
        k < s.len() ==> s[k] == 0,
    ensures
        first_nul(s) == k,
    decreases s.len(),
{
    if k > 0 {
        assert forall|q: int| 0 <= q < k - 1 implies s.drop_first()[q] != 0 by {
            assert(s.drop_first()[q] == s[q + 1]);
        }
        lemma_first_nul(s.drop_first(), k - 1);
    }
}

fn bytes_eq_range(raw: &[u8], from: usize, to: usize, lit: &[u8]) -> (r: bool)
    requires
        from <= to <= raw@.len(),
    ensures
        r == (raw@.subrange(from as int, to as int) == lit@),
{
    if to - from != lit.len() {
        return false;
    }
    let mut i: usize = 0;
    while i < lit.len()
        invariant
            lit@.len() == to - from,
            from <= to <= raw@.len(),
            i <= lit@.len(),
            forall|q: int| 0 <= q < i ==> raw@[from + q] == lit@[q],
        decreases lit@.len() - i,
    {
        if raw[from + i] != lit[i] {
            assert(raw@.subrange(from as int, to as int)[i as int] != lit@[i as int]);
            return false;
        }
        i = i + 1;
    }
    assert(raw@.subrange(from as int, to as int) =~= lit@);
    true
}

/// The `/proc` entries worth inspecting: names that read as a process id,
/// other than this process's own.
pub open spec fn reap_candidates_spec(names: Seq<Seq<char>>, own_pid: u32) -> Seq<i64>
    decreases names.len(),
{
    if names.len() == 0 {
        seq![]
    } else {
        let rest = reap_candidates_spec(names.drop_last(), own_pid);
        match crate::text::parse_i64_spec(names.last()) {
            Some(p) => if p == own_pid as i64 {
                rest
            } else {
                rest.push(p)
            },
            None => rest,
        }
    }
}

pub fn reap_candidates(names: &[String], own_pid: u32) -> (r: Vec<i64>)
    ensures
        r@ == reap_candidates_spec(crate::text::views(names@), own_pid),
{
    let mut out: Vec<i64> = Vec::new();
    let mut i: usize = 0;
    while i < names.len()
        invariant
            i <= names@.len(),
            out@ == reap_candidates_spec(crate::text::views(names@.take(i as int)), own_pid),
        decreases names@.len() - i,
    {
        proof {
            assert(crate::text::views(names@.take(i + 1)).drop_last() =~= crate::text::views(
                names@.take(i as int),
            ));
            assert(crate::text::views(names@.take(i + 1)).last() == names@[i as int]@);
        }
        let cs = to_chars(names[i].as_str());
        assert(cs@.subrange(0, cs@.len() as int) =~= cs@);
        match crate::text::parse_i64_range(&cs, 0, cs.len()) {
            Some(p) => {
                if p != own_pid as i64 {
                    out.push(p);
                }
            },
            None => {},
        }
        i = i + 1;
    }
    assert(names@.take(names@.len() as int) =~= names@);
    out
}

/// Whether a `/proc/<pid>/cmdline` belongs to a `nekos-core serve` control
/// process (the startup orphan reaper's test).
pub fn is_core_serve_cmdline(raw: &[u8]) -> (r: bool)
    requires
        raw@.len() < usize::MAX,
    ensures
        r == is_core_serve_spec(raw@),
{
    let serve: [u8; 5] = [115u8, 101u8, 114u8, 118u8, 101u8];
    let core: [u8; 10] = [110u8, 101u8, 107u8, 111u8, 115u8, 45u8, 99u8, 111u8, 114u8, 101u8];
    assert(serve@ =~= serve_bytes());
    assert(core@ =~= core_name_bytes());
    let n = raw.len();
    let mut is_core = false;
    let mut has_serve = false;
    let mut a: usize = 0;
    while a <= n
        invariant
            n == raw@.len(),
            n < usize::MAX,
            serve@ == serve_bytes(),
            core@ == core_name_bytes(),
            a <= n + 1,
            a <= n ==> arg_start(raw@, a as int),
            has_serve == exists|i: int| 0 <= i < a && #[trigger] is_serve_arg(raw@, i),
            is_core == exists|i: int| 0 <= i < a && #[trigger] is_core_arg(raw@, i),
        decreases n + 1 - a,
    {
        let mut b = a;
        while b < n && raw[b] != 0
            invariant
                a <= b <= n == raw@.len(),
                forall|q: int| a <= q < b ==> raw@[q] != 0,
            decreases n - b,
        {
            b = b + 1;
        }
        proof {
            let t = raw@.skip(a as int);
            assert forall|q: int| 0 <= q < b - a implies t[q] != 0 by {
                assert(t[q] == raw@[a + q]);
            }
            if b - a < t.len() {
                assert(t[b - a] == raw@[b as int]);
            }
            lemma_first_nul(t, b - a);
            assert(arg_at(raw@, a as int) == raw@.subrange(a as int, b as int));
        }
        let this_serve = bytes_eq_range(raw, a, b, &serve);
        let this_core = b - a >= 10 && bytes_eq_range(raw, b - 10, b, &core);
        proof {
            let arg = raw@.subrange(a as int, b as int);
            if b - a >= 10 {
                assert(arg.skip(arg.len() - 10) =~= raw@.subrange(b - 10, b as int));
            }
            assert(this_serve == is_serve_arg(raw@, a as int));
            assert(this_core == is_core_arg(raw@, a as int));
            // No argument starts strictly inside (a, b].
            assert forall|i: int| a < i <= b && i < b + 1 implies !arg_start(raw@, i) by {
                if i <= b && i > a {
                    assert(raw@[i - 1] != 0);
                }
            }
        }
        has_serve = has_serve || this_serve;
        is_core = is_core || this_core;
        proof {
            assert forall|i: int| #![auto] 0 <= i < b + 1 && is_serve_arg(raw@, i) implies (i < a || i
                == a) by {
                if i > a {
                    assert(raw@[i - 1] != 0);
                }
            }
            assert forall|i: int| #![auto] 0 <= i < b + 1 && is_core_arg(raw@, i) implies (i < a || i
                == a) by {
                if i > a {
                    assert(raw@[i - 1] != 0);
                }
            }
        }
        a = b + 1;
    }
    proof {
        assert forall|i: int| #[trigger] is_serve_arg(raw@, i) implies 0 <= i < a by {}
        assert forall|i: int| #[trigger] is_core_arg(raw@, i) implies 0 <= i < a by {}
    }
    is_core && has_serve
}

} // verus!
