//! What the container runtime is asked to do.
use vstd::prelude::*;

use crate::text::{
    chars_of, join, join_strings, matches_at_exec, replace_all, replace_chars, starts_with,
    string_from_chars,
};

verus! {

/// Neither container runtime is installed.
pub struct NoRuntime;

impl NoRuntime {
    /// The error's text.
    pub fn message(&self) -> (m: String)
        ensures
            m@ == "Neither podman nor docker found. Please install one to use fork."@,
    {
        "Neither podman nor docker found. Please install one to use fork.".to_owned()
    }
}

/// The runtime to use, given which of them are installed: podman first, then docker.
pub fn choose_runtime(podman_found: bool, docker_found: bool) -> (r: Result<String, NoRuntime>)
    ensures
        podman_found ==> (r matches Ok(s) && s@ == "podman"@),
        !podman_found && docker_found ==> (r matches Ok(s) && s@ == "docker"@),
        !podman_found && !docker_found ==> r is Err,
{
    if podman_found {
        Ok("podman".to_owned())
    } else if docker_found {
        Ok("docker".to_owned())
    } else {
        Err(NoRuntime)
    }
}

/// `c` is white space in the sense of Unicode's `White_Space` property.
pub open spec fn is_space(c: char) -> bool {
    ||| '\u{9}' <= c <= '\u{d}'
    ||| c == ' '
    ||| c == '\u{85}'
    ||| c == '\u{a0}'
    ||| c == '\u{1680}'
    ||| '\u{2000}' <= c <= '\u{200a}'
    ||| c == '\u{2028}'
    ||| c == '\u{2029}'
    ||| c == '\u{202f}'
    ||| c == '\u{205f}'
    ||| c == '\u{3000}'
}

/// `s` without its leading white space.
pub open spec fn trim_start(s: Seq<char>) -> Seq<char>
    decreases s.len(),
{
    if s.len() > 0 && is_space(s[0]) {
        trim_start(s.drop_first())
    } else {
        s
    }
}

fn is_space_exec(c: char) -> (r: bool)
    ensures
        r == is_space(c),
{
    ('\u{9}' <= c && c <= '\u{d}') || c == ' ' || c == '\u{85}' || c == '\u{a0}' || c == '\u{1680}'
        || ('\u{2000}' <= c && c <= '\u{200a}') || c == '\u{2028}' || c == '\u{2029}' || c
        == '\u{202f}' || c == '\u{205f}' || c == '\u{3000}'
}

/// Whether the command, leading white space aside, begins with `cargo `.
pub fn is_cargo_cmd(cmd: &str) -> (r: bool)
    ensures
        r == starts_with(trim_start(cmd@), "cargo "@),
{
    let s = chars_of(cmd);
    let mut i: usize = 0;
    assert(s@.skip(0) =~= s@);
    while i < s.len() && is_space_exec(s[i])
        invariant
            0 <= i <= s.len(),
            trim_start(s@) == trim_start(s@.skip(i as int)),
        decreases s.len() - i,
    {
        assert(s@.skip(i as int).drop_first() =~= s@.skip(i + 1));
        i = i + 1;
    }
    let rest: Vec<char> = crate::text::slice_chars(&s, i, s.len());
    assert(rest@ =~= s@.skip(i as int));
    let prefix = chars_of("cargo ");
    matches_at_exec(&rest, &prefix, 0)
}

/// The path to mount in the container: on Windows with `\` turned into `/`.
pub fn normalize_mount_path(path: &str, windows: bool) -> (r: String)
    ensures
        windows ==> r@ == replace_all(path@, "\\"@, "/"@),
        !windows ==> r@ == path@,
{
    if windows {
        let s = chars_of(path);
        let back = chars_of("\\");
        let slash = chars_of("/");
        proof {
            reveal_strlit("\\");
        }
        string_from_chars(&replace_chars(&s, &back, &slash))
    } else {
        path.to_owned()
    }
}

/// The command run in the container: `cmd`, then the extra arguments, separated by
/// spaces.
pub fn full_command(cmd: &str, extra: &Vec<String>) -> (r: String)
    ensures
        extra@.len() == 0 ==> r@ == cmd@,
        extra@.len() > 0 ==> r@ == cmd@ + " "@ + join(
            extra@.map_values(|s: String| s@),
            " "@,
        ),
{
    if extra.len() == 0 {
        cmd.to_owned()
    } else {
        let mut r = cmd.to_owned();
        r.append(" ");
        let rest = join_strings(extra, " ");
        r.append(rest.as_str());
        r
    }
}

/// The arguments that have the runtime run `exec_cmd` in a throw-away container of
/// `image`, with `mount` mounted and entered at `/project`, as `uid:gid` where a user
/// is given.
pub fn container_run_args(mount: &str, image: &str, exec_cmd: &str, user: Option<(String, String)>) -> (r: Vec<String>)
    ensures
        r@.map_values(|s: String| s@) == seq!["run"@, "--rm"@] + match user {
            Some(u) => seq!["--user"@, u.0@ + ":"@ + u.1@],
            None => seq![],
        } + seq![
            "-v"@,
            mount@ + ":/project"@,
            "-w"@,
            "/project"@,
            image@,
            "sh"@,
            "-c"@,
            exec_cmd@,
        ],
{
    let mut r: Vec<String> = Vec::new();
    r.push("run".to_owned());
    r.push("--rm".to_owned());
    match user {
        Some((uid, gid)) => {
            r.push("--user".to_owned());
            let mut u = uid;
            u.append(":");
            u.append(gid.as_str());
            r.push(u);
        },
        None => {},
    }
    r.push("-v".to_owned());
    let mut bind = mount.to_owned();
    bind.append(":/project");
    r.push(bind);
    r.push("-w".to_owned());
    r.push("/project".to_owned());
    r.push(image.to_owned());
    r.push("sh".to_owned());
    r.push("-c".to_owned());
    r.push(exec_cmd.to_owned());
    assert(r@.map_values(|s: String| s@) =~= seq!["run"@, "--rm"@] + match user {
        Some(u) => seq!["--user"@, u.0@ + ":"@ + u.1@],
        None => seq![],
    } + seq![
        "-v"@,
        mount@ + ":/project"@,
        "-w"@,
        "/project"@,
        image@,
        "sh"@,
        "-c"@,
        exec_cmd@,
    ]);
    r
}

} // verus!
