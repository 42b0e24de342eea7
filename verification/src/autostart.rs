//! Autostart entries: where they live and what they hold.
//!
//! - Linux: an XDG `.desktop` entry under `$XDG_CONFIG_HOME/autostart`.
//! - Windows: a `HKCU\...\Run` value holding the quoted executable path.
//! - macOS: a `LaunchAgent` plist loaded with `launchctl`.
//!
//! The shell reads the environment, writes or removes the files and runs
//! `launchctl`; paths are carried as strings.

use vstd::prelude::*;
use crate::text::{concat, from_chars, is_whitespace, is_ws, owned, to_chars, trim, trim_bounds, views};

verus! {

/// `PathBuf::push` of a relative component: a `/` is inserted unless the
/// base is empty or already ends with one.
pub open spec fn path_join(base: Seq<char>, comp: Seq<char>) -> Seq<char> {
    if base.len() == 0 || base.last() == '/' {
        base + comp
    } else {
        base + seq!['/'] + comp
    }
}

pub fn join_path(base: &str, comp: &str) -> (r: String)
    ensures
        r@ == path_join(base@, comp@),
{
    let b = to_chars(base);
    proof {
        reveal_strlit("/");
    }
    if b.len() == 0 || b[b.len() - 1] == '/' {
        concat(owned(base), comp)
    } else {
        concat(concat(owned(base), "/"), comp)
    }
}

/// The user's configuration directory: `$XDG_CONFIG_HOME` when set to a
/// non-blank value, else `$HOME/.config` (`./.config` without a home).
pub open spec fn config_home_spec(xdg: Option<Seq<char>>, home: Option<Seq<char>>) -> Seq<char> {
    match xdg {
        Some(d) if trim(d).len() > 0 => d,
        _ => path_join(
            match home {
                Some(h) => h,
                None => "."@,
            },
            ".config"@,
        ),
    }
}

pub fn config_home(xdg: Option<&str>, home: Option<&str>) -> (r: String)
    ensures
        r@ == config_home_spec(
            match xdg {
                Some(d) => Some(d@),
                None => None,
            },
            match home {
                Some(h) => Some(h@),
                None => None,
            },
        ),
{
    if let Some(d) = xdg {
        let cs = to_chars(d);
        let (a, b) = trim_bounds(&cs, 0, cs.len());
        assert(cs@.subrange(0, cs@.len() as int) =~= cs@);
        if a < b {
            return owned(d);
        }
    }
    match home {
        Some(h) => join_path(h, ".config"),
        None => join_path(".", ".config"),
    }
}

/// Where the Linux autostart entry lives.
pub fn desktop_path(xdg: Option<&str>, home: Option<&str>) -> (r: String)
    ensures
        r@ == path_join(
            path_join(
                config_home_spec(
                    match xdg {
                        Some(d) => Some(d@),
                        None => None,
                    },
                    match home {
                        Some(h) => Some(h@),
                        None => None,
                    },
                ),
                "autostart"@,
            ),
            "nekos.desktop"@,
        ),
{
    let base = config_home(xdg, home);
    let dir = join_path(base.as_str(), "autostart");
    join_path(dir.as_str(), "nekos.desktop")
}

/// `s.replace(c, ...)`-style escaping: each character of `s` mapped to a
/// replacement sequence.
pub open spec fn escape_quotes(s: Seq<char>) -> Seq<char>
    decreases s.len(),
{
    if s.len() == 0 {
        seq![]
    } else {
        escape_quotes(s.drop_last()) + if s.last() == '"' {
            seq!['\\', '"']
        } else {
            seq![s.last()]
        }
    }
}

/// The `.desktop` `Exec` value for an executable path: quoted, with inner
/// quotes escaped, when the path contains whitespace.
pub open spec fn exec_escape_spec(s: Seq<char>) -> Seq<char> {
    if exists|i: int| 0 <= i < s.len() && is_ws(#[trigger] s[i]) {
        seq!['"'] + escape_quotes(s) + seq!['"']
    } else {
        s
    }
}

pub fn exec_escape(s: &str) -> (r: String)
    ensures
        r@ == exec_escape_spec(s@),
{
    let cs = to_chars(s);
    let n = cs.len();
    let mut has_ws = false;
    let mut i: usize = 0;
    while i < n
        invariant
            n == cs@.len(),
            cs@ == s@,
            i <= n,
            has_ws == exists|j: int| 0 <= j < i && is_ws(#[trigger] cs@[j]),
        decreases n - i,
    {
        if is_whitespace(cs[i]) {
            has_ws = true;
        }
        i = i + 1;
    }
    if !has_ws {
        return owned(s);
    }
    let mut v: Vec<char> = Vec::new();
    v.push('"');
    let mut i: usize = 0;
    while i < n
        invariant
            n == cs@.len(),
            i <= n,
            v@ == seq!['"'] + escape_quotes(cs@.take(i as int)),
        decreases n - i,
    {
        if cs[i] == '"' {
            v.push('\\');
        }
        v.push(cs[i]);
        proof {
            assert(cs@.take(i + 1).drop_last() =~= cs@.take(i as int));
            assert(v@ =~= seq!['"'] + escape_quotes(cs@.take(i + 1)));
        }
        i = i + 1;
    }
    v.push('"');
    assert(cs@.take(n as int) =~= cs@);
    assert(v@ =~= seq!['"'] + escape_quotes(s@) + seq!['"']);
    from_chars(&v)
}

/// Contents of the Linux autostart entry for executable `exe`.
pub fn desktop_entry(exe: &str) -> (r: String)
    ensures
        r@ == "[Desktop Entry]\nType=Application\nVersion=1.0\nName=nekos\nComment=nekos proxy client\nExec="@
            + exec_escape_spec(exe@) + "\nX-GNOME-Autostart-enabled=true\n"@,
{
    let head = owned(
        "[Desktop Entry]\nType=Application\nVersion=1.0\nName=nekos\nComment=nekos proxy client\nExec=",
    );
    let r = concat(head, exec_escape(exe).as_str());
    concat(r, "\nX-GNOME-Autostart-enabled=true\n")
}

/// The Windows `Run` value: the executable path in quotes.
pub fn run_command(exe: &str) -> (r: String)
    ensures
        r@ == "\""@ + exe@ + "\""@,
{
    concat(concat(owned("\""), exe), "\"")
}

/// The macOS LaunchAgent label.
pub fn launch_label() -> (r: String)
    ensures
        r@ == "app.nekos.desktop"@,
{
    owned("app.nekos.desktop")
}

/// Where the macOS LaunchAgent lives: `$HOME/Library/LaunchAgents/...`.
pub fn plist_path(home: Option<&str>) -> (r: String)
    ensures
        r@ == path_join(
            path_join(
                match home {
                    Some(h) => h@,
                    None => "."@,
                },
                "Library/LaunchAgents"@,
            ),
            "app.nekos.desktop.plist"@,
        ),
{
    let dir = match home {
        Some(h) => join_path(h, "Library/LaunchAgents"),
        None => join_path(".", "Library/LaunchAgents"),
    };
    join_path(dir.as_str(), "app.nekos.desktop.plist")
}

/// `s` with `&`, `<` and `>` replaced by XML entities.
pub open spec fn xml_escape_spec(s: Seq<char>) -> Seq<char>
    decreases s.len(),
{
    if s.len() == 0 {
        seq![]
    } else {
        let c = s.last();
        xml_escape_spec(s.drop_last()) + if c == '&' {
            "&amp;"@
        } else if c == '<' {
            "&lt;"@
        } else if c == '>' {
            "&gt;"@
        } else {
            seq![c]
        }
    }
}

pub fn xml_escape(s: &str) -> (r: String)
    ensures
        r@ == xml_escape_spec(s@),
{
    let cs = to_chars(s);
    let n = cs.len();
    let mut r = String::new();
    let mut i: usize = 0;
    while i < n
        invariant
            n == cs@.len(),
            cs@ == s@,
            i <= n,
            r@ == xml_escape_spec(cs@.take(i as int)),
        decreases n - i,
    {
        let c = cs[i];
        proof {
            assert(cs@.take(i + 1).drop_last() =~= cs@.take(i as int));
            assert(cs@.take(i + 1).last() == c);
        }
        if c == '&' {
            r.append("&amp;");
        } else if c == '<' {
            r.append("&lt;");
        } else if c == '>' {
            r.append("&gt;");
        } else {
            crate::text::push_char(&mut r, c);
            assert(r@ =~= xml_escape_spec(cs@.take(i + 1)));
        }
        i = i + 1;
    }
    assert(cs@.take(n as int) =~= cs@);
    r
}

/// Contents of the macOS LaunchAgent plist for executable `exe`.
pub fn plist_content(exe: &str) -> (r: String)
    ensures
        r@ == "<?xml version=\"1.0\" encoding=\"UTF-8\"?>\n<!DOCTYPE plist PUBLIC \"-//Apple//DTD PLIST 1.0//EN\" \"http://www.apple.com/DTDs/PropertyList-1.0.dtd\">\n<plist version=\"1.0\">\n<dict>\n\t<key>Label</key>\n\t<string>app.nekos.desktop</string>\n\t<key>ProgramArguments</key>\n\t<array>\n\t\t<string>"@
            + xml_escape_spec(exe@)
            + "</string>\n\t</array>\n\t<key>RunAtLoad</key>\n\t<true/>\n</dict>\n</plist>\n"@,
{
    let head = owned(
        "<?xml version=\"1.0\" encoding=\"UTF-8\"?>\n<!DOCTYPE plist PUBLIC \"-//Apple//DTD PLIST 1.0//EN\" \"http://www.apple.com/DTDs/PropertyList-1.0.dtd\">\n<plist version=\"1.0\">\n<dict>\n\t<key>Label</key>\n\t<string>app.nekos.desktop</string>\n\t<key>ProgramArguments</key>\n\t<array>\n\t\t<string>",
    );
    let r = concat(head, xml_escape(exe).as_str());
    concat(r, "</string>\n\t</array>\n\t<key>RunAtLoad</key>\n\t<true/>\n</dict>\n</plist>\n")
}

/// `launchctl` arguments loading the agent into the user's GUI session.
pub fn bootstrap_args(uid: &str, plist: &str) -> (r: Vec<String>)
    ensures
        views(r@) == seq!["bootstrap"@, "gui/"@ + uid@, plist@],
{
    let v = vec![owned("bootstrap"), concat(owned("gui/"), uid), owned(plist)];
    assert(views(v@) =~= seq!["bootstrap"@, "gui/"@ + uid@, plist@]);
    v
}

/// `launchctl` arguments unloading the agent from the user's GUI session.
pub fn bootout_args(uid: &str) -> (r: Vec<String>)
    ensures
        views(r@) == seq!["bootout"@, "gui/"@ + uid@ + "/app.nekos.desktop"@],
{
    let v = vec![owned("bootout"), concat(concat(owned("gui/"), uid), "/app.nekos.desktop")];
    assert(views(v@) =~= seq!["bootout"@, "gui/"@ + uid@ + "/app.nekos.desktop"@]);
    v
}

} // verus!
