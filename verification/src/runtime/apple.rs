//! The container runtime over the bundled apple/container CLI: the command
//! lines it runs and how it reads the CLI's reports.

use super::process::Cli;
use super::{ContainerSpec, ContainerState, MANAGED_LABEL};
use crate::error::{is_runtime_error, AppError};
use crate::results::export::join;
use crate::paths::{join_path, path_join};
use crate::text::{
    chars_eq, chars_of, concat, concat3, dec_digits, extend_chars, extend_str, lines_of, owned, rtrim, rtrim_index, str_eq,
    str_lines, string_of, trim, trim_bounds, u64_dec,
};
use vstd::prelude::*;

verus! {

pub struct AppleContainerRuntime {
    pub cli: Cli,
    /// Directory containing bin/ and libexec/ (the bundled resource tree).
    pub install_root: String,
    pub app_root: String,
    pub log_root: String,
}

/// Position of the first `/` at or after `pos`, or the length.
pub open spec fn next_slash(p: Seq<char>, pos: int) -> int
    decreases p.len() - pos,
{
    if pos >= p.len() {
        p.len() as int
    } else if p[pos] == '/' {
        pos
    } else {
        next_slash(p, pos + 1)
    }
}

pub proof fn lemma_next_slash(p: Seq<char>, pos: int)
    requires
        0 <= pos <= p.len(),
    ensures
        pos <= next_slash(p, pos) <= p.len(),
        next_slash(p, pos) < p.len() ==> p[next_slash(p, pos)] == '/',
        forall|k: int| pos <= k < next_slash(p, pos) ==> p[k] != '/',
    decreases p.len() - pos,
{
    if pos < p.len() && p[pos] != '/' {
        lemma_next_slash(p, pos + 1);
    }
}

/// The normal components of `p[pos..]`: the parts between separators,
/// empty parts and `.` dropped.
pub open spec fn normal_parts(p: Seq<char>, pos: int) -> Seq<Seq<char>>
    decreases p.len() - pos, 1int,
{
    if pos < 0 || pos >= p.len() {
        seq![]
    } else if p[pos] == '/' {
        normal_parts(p, pos + 1)
    } else {
        let e = next_slash(p, pos);
        proof {
            lemma_next_slash(p, pos);
        }
        let seg = p.subrange(pos, e);
        if seg == seq!['.'] {
            normal_parts(p, e)
        } else {
            seq![seg] + normal_parts(p, e)
        }
    }
}

/// `Path::components` on Unix: a root (`/`) or a leading current-directory
/// (`.`) component, then the normal parts.
pub open spec fn path_components(p: Seq<char>) -> Seq<Seq<char>> {
    if p.len() > 0 && p[0] == '/' {
        seq![seq!['/']] + normal_parts(p, 1)
    } else if p.len() > 0 && p[0] == '.' && (p.len() == 1 || p[1] == '/') {
        seq![seq!['.']] + normal_parts(p, 1)
    } else {
        normal_parts(p, 0)
    }
}

/// `Path::starts_with`: the base's components are a prefix of the path's.
pub open spec fn path_starts_with(p: Seq<char>, base: Seq<char>) -> bool {
    let a = path_components(p);
    let b = path_components(base);
    b.len() <= a.len() && a.take(b.len() as int) == b
}

fn normal_parts_into(p: &Vec<char>, from: usize, init: Vec<Vec<char>>) -> (r: Vec<Vec<char>>)
    requires
        from <= p@.len(),
    ensures
        r@.map_values(|c: Vec<char>| c@) == init@.map_values(|c: Vec<char>| c@) + normal_parts(p@, from as int),
{
    let n = p.len();
    let ghost start = init@.map_values(|c: Vec<char>| c@);
    let mut out = init;
    let mut pos = from;
    while pos < n
        invariant
            from <= pos <= n == p@.len(),
            out@.map_values(|c: Vec<char>| c@) + normal_parts(p@, pos as int) == start + normal_parts(p@, from as int),
        decreases n - pos,
    {
        if p[pos] == '/' {
            pos += 1;
        } else {
            proof {
                lemma_next_slash(p@, pos as int);
            }
            let mut e = pos;
            let mut seg: Vec<char> = Vec::new();
            while e < n && p[e] != '/'
                invariant
                    pos <= e <= n == p@.len(),
                    next_slash(p@, pos as int) == next_slash(p@, e as int),
                    seg@ == p@.subrange(pos as int, e as int),
                decreases n - e,
            {
                seg.push(p[e]);
                assert(p@.subrange(pos as int, e + 1) =~= p@.subrange(pos as int, e as int).push(p@[e as int]));
                e += 1;
            }
            let ghost before = out@.map_values(|c: Vec<char>| c@);
            let dot = seg.len() == 1 && seg[0] == '.';
            assert(dot == (seg@ =~= seq!['.']));
            if !dot {
                out.push(seg);
                assert(out@.map_values(|c: Vec<char>| c@) =~= before.push(p@.subrange(pos as int, e as int)));
                assert(before + normal_parts(p@, pos as int) =~= out@.map_values(|c: Vec<char>| c@) + normal_parts(p@, e as int));
            }
            pos = e;
        }
    }
    assert(normal_parts(p@, n as int) =~= Seq::<Seq<char>>::empty());
    assert(out@.map_values(|c: Vec<char>| c@) + normal_parts(p@, n as int) =~= out@.map_values(|c: Vec<char>| c@));
    out
}

fn components_of(p: &str) -> (r: Vec<Vec<char>>)
    ensures
        r@.map_values(|c: Vec<char>| c@) == path_components(p@),
{
    let v = chars_of(p);
    if v.len() > 0 && v[0] == '/' {
        let mut out: Vec<Vec<char>> = Vec::new();
        let mut root: Vec<char> = Vec::new();
        root.push('/');
        out.push(root);
        assert(out@.map_values(|c: Vec<char>| c@) =~= seq![seq!['/']]);
        normal_parts_into(&v, 1, out)
    } else if v.len() > 0 && v[0] == '.' && (v.len() == 1 || v[1] == '/') {
        let mut out: Vec<Vec<char>> = Vec::new();
        let mut cur: Vec<char> = Vec::new();
        cur.push('.');
        out.push(cur);
        assert(out@.map_values(|c: Vec<char>| c@) =~= seq![seq!['.']]);
        normal_parts_into(&v, 1, out)
    } else {
        let out: Vec<Vec<char>> = Vec::new();
        assert(out@.map_values(|c: Vec<char>| c@) =~= Seq::<Seq<char>>::empty());
        let r = normal_parts_into(&v, 0, out);
        assert(Seq::<Seq<char>>::empty() + normal_parts(v@, 0) =~= normal_parts(v@, 0));
        r
    }
}

/// Whether `p` lies under `base`, comparing whole components.
pub fn path_has_prefix(p: &str, base: &str) -> (r: bool)
    ensures
        r == path_starts_with(p@, base@),
{
    let a = components_of(p);
    let b = components_of(base);
    let ghost av = a@.map_values(|c: Vec<char>| c@);
    let ghost bv = b@.map_values(|c: Vec<char>| c@);
    if b.len() > a.len() {
        return false;
    }
    let mut i: usize = 0;
    while i < b.len()
        invariant
            b@.len() <= a@.len(),
            i <= b@.len(),
            av == a@.map_values(|c: Vec<char>| c@),
            bv == b@.map_values(|c: Vec<char>| c@),
            forall|k: int| 0 <= k < i ==> av[k] == bv[k],
            av == path_components(p@),
            bv == path_components(base@),
        decreases b@.len() - i,
    {
        if !chars_eq(a[i].as_slice(), b[i].as_slice()) {
            assert(av[i as int] == a@[i as int]@);
            assert(bv[i as int] == b@[i as int]@);
            assert(av.take(bv.len() as int)[i as int] != bv[i as int]);
            return false;
        }
        i += 1;
    }
    assert(av.take(bv.len() as int) =~= bv);
    true
}

impl AppleContainerRuntime {
    pub fn new(install_root: String, app_root: String, log_root: String) -> (r: Self)
        ensures
            r.cli.binary@ == join_path(install_root@, "bin/container"@),
            r.install_root == install_root,
            r.app_root == app_root,
            r.log_root == log_root,
    {
        let binary = path_join(install_root.as_str(), "bin/container");
        AppleContainerRuntime { cli: Cli { binary }, install_root, app_root, log_root }
    }

    /// Whether a running apiserver belongs to this bundle.
    pub fn ours(&self, apiserver: &str) -> (r: bool)
        ensures
            r == path_starts_with(apiserver@, self.install_root@),
    {
        path_has_prefix(apiserver, self.install_root.as_str())
    }
}

pub open spec fn strs(v: Seq<String>) -> Seq<Seq<char>> {
    v.map_values(|s: String| s@)
}

fn push_arg(args: &mut Vec<String>, s: &str)
    ensures
        strs(final(args)@) == strs(old(args)@).push(s@),
{
    args.push(owned(s));
    assert(strs(args@) =~= strs(old(args)@).push(s@));
}

/// `flag key<sep>value` for every entry, in order.
pub open spec fn pair_args(flag: Seq<char>, m: Seq<(String, String)>, sep: char) -> Seq<Seq<char>>
    decreases m.len(),
{
    if m.len() == 0 {
        seq![]
    } else {
        pair_args(flag, m.drop_last(), sep) + seq![flag, m.last().0@ + seq![sep] + m.last().1@]
    }
}

fn push_pairs(args: &mut Vec<String>, flag: &str, m: &Vec<(String, String)>, sep: char)
    ensures
        strs(final(args)@) == strs(old(args)@) + pair_args(flag@, m@, sep),
{
    let mut i: usize = 0;
    while i < m.len()
        invariant
            i <= m@.len(),
            strs(args@) == strs(old(args)@) + pair_args(flag@, m@.take(i as int), sep),
        decreases m@.len() - i,
    {
        assert(m@.take(i + 1).drop_last() =~= m@.take(i as int));
        let mut v = chars_of(m[i].0.as_str());
        v.push(sep);
        extend_str(&mut v, m[i].1.as_str());
        let kv = string_of(v.as_slice());
        let ghost before = strs(args@);
        push_arg(args, flag);
        push_arg(args, kv.as_str());
        assert(m@.take(i + 1).last() == m@[i as int]);
        assert(kv@ == m@[i as int].0@ + seq![sep] + m@[i as int].1@);
        assert(pair_args(flag@, m@.take(i + 1), sep) == pair_args(flag@, m@.take(i as int), sep) + seq![flag@, kv@]);
        assert(strs(args@) =~= strs(old(args)@) + pair_args(flag@, m@.take(i + 1), sep));
        i += 1;
    }
    assert(m@.take(m@.len() as int) =~= m@);
}

pub open spec fn spec_run_args(spec: ContainerSpec) -> Seq<Seq<char>> {
    seq![
        "run"@,
        "-d"@,
        "--rosetta"@,
        "--arch"@,
        "amd64"@,
        "-m"@,
        dec_digits(spec.memory_mb as nat) + "M"@,
        "-l"@,
        MANAGED_LABEL@ + "=true"@,
        "--name"@,
        spec.name@,
    ] + pair_args("-e"@, spec.env@, '=') + pair_args("-v"@, spec.volumes@, ':') + seq![spec.image@]
}

/// `container run` arguments for a detached instance container: amd64
/// under Rosetta, memory-limited, labelled as ours, with its environment and
/// volumes. No `--rm`: an exited container keeps its logs readable.
pub fn run_args(spec: &ContainerSpec) -> (r: Vec<String>)
    ensures
        strs(r@) == spec_run_args(*spec),
{
    let mut args: Vec<String> = Vec::new();
    push_arg(&mut args, "run");
    push_arg(&mut args, "-d");
    push_arg(&mut args, "--rosetta");
    push_arg(&mut args, "--arch");
    push_arg(&mut args, "amd64");
    push_arg(&mut args, "-m");
    let mut mem = u64_dec(spec.memory_mb as u64);
    extend_str(&mut mem, "M");
    push_arg(&mut args, string_of(mem.as_slice()).as_str());
    push_arg(&mut args, "-l");
    push_arg(&mut args, concat(MANAGED_LABEL, "=true").as_str());
    push_arg(&mut args, "--name");
    push_arg(&mut args, spec.name.as_str());
    push_pairs(&mut args, "-e", &spec.env, '=');
    push_pairs(&mut args, "-v", &spec.volumes, ':');
    push_arg(&mut args, spec.image.as_str());
    assert(strs(args@) =~= spec_run_args(*spec));
    args
}

pub open spec fn spec_oneshot_args(image: Seq<char>, user: Seq<char>, volumes: Seq<(String, String)>, cmd: Seq<Seq<char>>) -> Seq<Seq<char>> {
    seq!["run"@, "--rm"@, "--rosetta"@, "--arch"@, "amd64"@, "--user"@, user] + pair_args("-v"@, volumes, ':')
        + seq![image] + cmd
}

/// `container run --rm` arguments for a one-shot command as `user`.
pub fn oneshot_args(image: &str, user: &str, volumes: &Vec<(String, String)>, cmd: &Vec<String>) -> (r: Vec<String>)
    ensures
        strs(r@) == spec_oneshot_args(image@, user@, volumes@, strs(cmd@)),
{
    let mut args: Vec<String> = Vec::new();
    push_arg(&mut args, "run");
    push_arg(&mut args, "--rm");
    push_arg(&mut args, "--rosetta");
    push_arg(&mut args, "--arch");
    push_arg(&mut args, "amd64");
    push_arg(&mut args, "--user");
    push_arg(&mut args, user);
    push_pairs(&mut args, "-v", volumes, ':');
    push_arg(&mut args, image);
    let ghost head = strs(args@);
    let mut i: usize = 0;
    while i < cmd.len()
        invariant
            i <= cmd@.len(),
            strs(args@) == head + strs(cmd@).take(i as int),
        decreases cmd@.len() - i,
    {
        push_arg(&mut args, cmd[i].as_str());
        assert(strs(cmd@).take(i + 1) =~= strs(cmd@).take(i as int).push(cmd@[i as int]@));
        i += 1;
    }
    assert(strs(cmd@).take(cmd@.len() as int) =~= strs(cmd@));
    assert(strs(args@) =~= spec_oneshot_args(image@, user@, volumes@, strs(cmd@)));
    args
}

pub open spec fn spec_exec_args(name: Seq<char>, cmd: Seq<Seq<char>>, as_root: bool) -> Seq<Seq<char>> {
    seq!["exec"@] + (if as_root { seq!["--user"@, "root"@] } else { seq![] }) + seq![name] + cmd
}

/// `container exec` arguments, as root when asked.
pub fn exec_args(name: &str, cmd: &Vec<String>, as_root: bool) -> (r: Vec<String>)
    ensures
        strs(r@) == spec_exec_args(name@, strs(cmd@), as_root),
{
    let mut args: Vec<String> = Vec::new();
    push_arg(&mut args, "exec");
    if as_root {
        push_arg(&mut args, "--user");
        push_arg(&mut args, "root");
    }
    push_arg(&mut args, name);
    let ghost head = strs(args@);
    let mut i: usize = 0;
    while i < cmd.len()
        invariant
            i <= cmd@.len(),
            strs(args@) == head + strs(cmd@).take(i as int),
        decreases cmd@.len() - i,
    {
        push_arg(&mut args, cmd[i].as_str());
        assert(strs(cmd@).take(i + 1) =~= strs(cmd@).take(i as int).push(cmd@[i as int]@));
        i += 1;
    }
    assert(strs(cmd@).take(cmd@.len() as int) =~= strs(cmd@));
    assert(strs(args@) =~= spec_exec_args(name@, strs(cmd@), as_root));
    args
}

impl AppleContainerRuntime {
    pub open spec fn spec_system_start_args(&self) -> Seq<Seq<char>> {
        seq![
            "system"@,
            "start"@,
            "--app-root"@,
            self.app_root@,
            "--install-root"@,
            self.install_root@,
            "--log-root"@,
            self.log_root@,
            "--enable-kernel-install"@,
            "--timeout"@,
            "60"@,
        ]
    }

    /// `container system start` arguments with this bundle's roots.
    pub fn system_start_args(&self) -> (r: Vec<String>)
        ensures
            strs(r@) == self.spec_system_start_args(),
    {
        let mut args: Vec<String> = Vec::new();
        push_arg(&mut args, "system");
        push_arg(&mut args, "start");
        push_arg(&mut args, "--app-root");
        push_arg(&mut args, self.app_root.as_str());
        push_arg(&mut args, "--install-root");
        push_arg(&mut args, self.install_root.as_str());
        push_arg(&mut args, "--log-root");
        push_arg(&mut args, self.log_root.as_str());
        push_arg(&mut args, "--enable-kernel-install");
        push_arg(&mut args, "--timeout");
        push_arg(&mut args, "60");
        assert(strs(args@) =~= self.spec_system_start_args());
        args
    }
}

/// The error when another installation's apiserver is running.
pub fn foreign_runtime_error(apiserver: &str) -> (r: AppError)
    ensures
        is_runtime_error(
            r,
            "Another `container` installation is already running on this Mac"@,
            Some("Found a running apiserver at "@ + apiserver@ + ". Stop it with `container system stop` and retry."@),
        ),
{
    AppError::runtime(
        owned("Another `container` installation is already running on this Mac"),
        Some(concat3("Found a running apiserver at ", apiserver, ". Stop it with `container system stop` and retry.")),
    )
}

/// What making the runtime ready takes, given the apiserver that runs now.
pub enum ReadyStep {
    /// Ours is up: nothing to do.
    Ready,
    /// Another installation's is up: refuse with this error.
    Refuse(AppError),
    /// None is up: run `container` with these arguments.
    Start(Vec<String>),
}

impl AppleContainerRuntime {
    /// The readiness decision: ours running is ready, another running is
    /// refused, none running means starting ours.
    pub fn ready_step(&self, apiserver: Option<&str>) -> (r: ReadyStep)
        ensures
            match apiserver {
                Some(a) => if path_starts_with(a@, self.install_root@) {
                    r is Ready
                } else {
                    r matches ReadyStep::Refuse(e) && is_runtime_error(
                        e,
                        "Another `container` installation is already running on this Mac"@,
                        Some("Found a running apiserver at "@ + a@ + ". Stop it with `container system stop` and retry."@),
                    )
                },
                None => r matches ReadyStep::Start(args) && strs(args@) == self.spec_system_start_args(),
            },
    {
        match apiserver {
            Some(a) => if self.ours(a) {
                ReadyStep::Ready
            } else {
                ReadyStep::Refuse(foreign_runtime_error(a))
            },
            None => ReadyStep::Start(self.system_start_args()),
        }
    }

    /// Whether shutting down stops a runtime: only a running one of ours.
    pub fn stops_on_shutdown(&self, apiserver: Option<&str>) -> (r: bool)
        ensures
            r == match apiserver {
                Some(a) => path_starts_with(a@, self.install_root@),
                None => false,
            },
    {
        match apiserver {
            Some(a) => self.ours(a),
            None => false,
        }
    }
}

/// The part of `s` before the first `c` (all of it when there is none).
pub open spec fn before_char(s: Seq<char>, c: char) -> Seq<char> {
    s.take(index_of_char(s, c, 0))
}

pub open spec fn index_of_char(s: Seq<char>, c: char, pos: int) -> int
    decreases s.len() - pos,
{
    if pos >= s.len() {
        s.len() as int
    } else if s[pos] == c {
        pos
    } else {
        index_of_char(s, c, pos + 1)
    }
}

pub fn before_char_of(s: &str, c: char) -> (r: String)
    ensures
        r@ == before_char(s@, c),
{
    let v = chars_of(s);
    let mut i: usize = 0;
    while i < v.len() && v[i] != c
        invariant
            i <= v@.len(),
            v@ == s@,
            index_of_char(v@, c, 0) == index_of_char(v@, c, i as int),
        decreases v@.len() - i,
    {
        i += 1;
    }
    let mut out: Vec<char> = Vec::new();
    let mut k: usize = 0;
    while k < i
        invariant
            k <= i <= v@.len(),
            out@ == v@.take(k as int),
        decreases i - k,
    {
        out.push(v[k]);
        assert(v@.take(k + 1) =~= v@.take(k as int).push(v@[k as int]));
        k += 1;
    }
    string_of(out.as_slice())
}

/// Whether the local image store lists `image`: by its full reference or
/// by its repository:tag part (the store drops the digest).
pub fn image_listed(names: &Vec<String>, image: &str) -> (r: bool)
    ensures
        r == exists|i: int| 0 <= i < names@.len() && ((#[trigger] names@[i])@ == image@ || names@[i]@ == before_char(image@, '@')),
{
    let want_tag = before_char_of(image, '@');
    let mut i: usize = 0;
    while i < names.len()
        invariant
            i <= names@.len(),
            want_tag@ == before_char(image@, '@'),
            forall|k: int| 0 <= k < i ==> !((#[trigger] names@[k])@ == image@ || names@[k]@ == want_tag@),
        decreases names@.len() - i,
    {
        if str_eq(names[i].as_str(), image) || str_eq(names[i].as_str(), want_tag.as_str()) {
            return true;
        }
        i += 1;
    }
    false
}

/// What `container inspect`/`list` report as a container's state: running
/// (with the address part of its first network's CIDR) or stopped.
pub fn state_from_status(state: Option<&str>, ipv4_cidr: Option<&str>) -> (r: ContainerState)
    ensures
        match state {
            Some(s) => if s@ == "running"@ {
                r matches ContainerState::Running { ip } && ip@ == match ipv4_cidr {
                    Some(c) => before_char(c@, '/'),
                    None => Seq::<char>::empty(),
                }
            } else {
                r is Stopped
            },
            None => r is Stopped,
        },
{
    match state {
        Some(s) => {
            if str_eq(s, "running") {
                let ip = match ipv4_cidr {
                    Some(c) => before_char_of(c, '/'),
                    None => String::new(),
                };
                ContainerState::Running { ip }
            } else {
                ContainerState::Stopped
            }
        },
        None => ContainerState::Stopped,
    }
}

/// The last `tail` lines of the CLI's log output, joined with newlines.
pub open spec fn spec_log_tail(out: Seq<char>, tail: nat) -> Seq<char> {
    let ls = str_lines(out);
    let start = if ls.len() >= tail { ls.len() - tail } else { 0 };
    join(ls.skip(start), '\n')
}

pub fn log_tail(out: &str, tail: usize) -> (r: String)
    ensures
        r@ == spec_log_tail(out@, tail as nat),
{
    let ls = lines_of(out);
    let ghost lv = ls@.map_values(|l: Vec<char>| l@);
    let start = if ls.len() >= tail {
        ls.len() - tail
    } else {
        0
    };
    let mut v: Vec<char> = Vec::new();
    let mut i = start;
    while i < ls.len()
        invariant
            start <= i <= ls@.len(),
            lv == ls@.map_values(|l: Vec<char>| l@),
            lv == str_lines(out@),
            v@ == join(lv.subrange(start as int, i as int), '\n'),
        decreases ls@.len() - i,
    {
        assert(lv.subrange(start as int, i + 1).drop_last() =~= lv.subrange(start as int, i as int));
        if i > start {
            v.push('\n');
        }
        extend_chars(&mut v, ls[i].as_slice());
        assert(i == start ==> lv.subrange(start as int, i + 1) =~= seq![lv[i as int]]);
        i += 1;
    }
    assert(lv.subrange(start as int, ls@.len() as int) =~= lv.skip(start as int));
    string_of(v.as_slice())
}

/// `s` with every `'` written as `'\''` (for a single-quoted shell word).
pub open spec fn shell_escape(s: Seq<char>) -> Seq<char>
    decreases s.len(),
{
    if s.len() == 0 {
        seq![]
    } else {
        shell_escape(s.drop_last()) + if s.last() == '\'' {
            "'\\''"@
        } else {
            seq![s.last()]
        }
    }
}

/// The shell command that writes its standard input to `dest` inside the
/// container.
pub fn copy_in_script(dest: &str) -> (r: String)
    ensures
        r@ == "cat > '"@ + shell_escape(dest@) + "'"@,
{
    let d = chars_of(dest);
    let mut v: Vec<char> = Vec::new();
    extend_str(&mut v, "cat > '");
    let ghost head = v@;
    let mut i: usize = 0;
    while i < d.len()
        invariant
            i <= d@.len(),
            d@ == dest@,
            v@ == head + shell_escape(d@.take(i as int)),
        decreases d@.len() - i,
    {
        assert(d@.take(i + 1).drop_last() =~= d@.take(i as int));
        if d[i] == '\'' {
            extend_str(&mut v, "'\\''");
        } else {
            v.push(d[i]);
        }
        assert(v@ =~= head + shell_escape(d@.take(i + 1)));
        i += 1;
    }
    assert(d@.take(d@.len() as int) =~= d@);
    extend_str(&mut v, "'");
    string_of(v.as_slice())
}

/// Whether a `ps -axo comm` line names a container apiserver binary.
pub open spec fn is_apiserver_line(l: Seq<char>) -> bool {
    let t = rtrim(l);
    let suffix = "bin/container-apiserver"@;
    t.len() >= suffix.len() && t.skip(t.len() - suffix.len()) == suffix
}

/// The path of the first running container apiserver in `ps -axo comm`
/// output.
pub fn apiserver_from_ps(out: &str) -> (r: Option<String>)
    ensures
        match r {
            Some(p) => exists|i: int| #![trigger str_lines(out@)[i]]
                0 <= i < str_lines(out@).len() && is_apiserver_line(str_lines(out@)[i])
                    && (forall|j: int| 0 <= j < i ==> !is_apiserver_line(#[trigger] str_lines(out@)[j]))
                    && p@ == trim(str_lines(out@)[i]),
            None => forall|i: int| 0 <= i < str_lines(out@).len() ==> !is_apiserver_line(#[trigger] str_lines(out@)[i]),
        },
{
    let ls = lines_of(out);
    let ghost lv = ls@.map_values(|l: Vec<char>| l@);
    let suffix = chars_of("bin/container-apiserver");
    proof {
        reveal_strlit("bin/container-apiserver");
    }
    let mut i: usize = 0;
    while i < ls.len()
        invariant
            i <= ls@.len(),
            lv == ls@.map_values(|l: Vec<char>| l@),
            lv == str_lines(out@),
            suffix@ == "bin/container-apiserver"@,
            forall|j: int| 0 <= j < i ==> !is_apiserver_line(#[trigger] lv[j]),
        decreases ls@.len() - i,
    {
        let l = &ls[i];
        let (lo, hi) = trim_bounds(l.as_slice(), 0, l.len());
        let e = rtrim_index(l.as_slice(), 0, l.len());
        assert(l@.subrange(0, l@.len() as int) =~= l@);
        assert(l@.subrange(0, e as int) == rtrim(l@));
        let mut hit = e >= suffix.len();
        if hit {
            let base = e - suffix.len();
            let mut k: usize = 0;
            while k < suffix.len()
                invariant
                    base + suffix@.len() == e <= l@.len(),
                    k <= suffix@.len(),
                    hit == (forall|x: int| 0 <= x < k ==> l@[base + x] == suffix@[x]),
                decreases suffix@.len() - k,
            {
                if l[base + k] != suffix[k] {
                    hit = false;
                }
                k += 1;
            }
            proof {
                let t = rtrim(l@);
                if hit {
                    assert(t.skip(t.len() - suffix@.len()) =~= suffix@);
                } else if t.skip(t.len() - suffix@.len()) == suffix@ {
                    assert forall|x: int| 0 <= x < suffix@.len() implies l@[base + x] == suffix@[x] by {
                        assert(t.skip(t.len() - suffix@.len())[x] == t[base + x]);
                    }
                }
            }
        }
        assert(lv[i as int] == l@);
        if hit {
            let mut p: Vec<char> = Vec::new();
            let mut k = lo;
            while k < hi
                invariant
                    lo <= k <= hi <= l@.len(),
                    p@ == l@.subrange(lo as int, k as int),
                decreases hi - k,
            {
                p.push(l[k]);
                assert(l@.subrange(lo as int, k + 1) =~= l@.subrange(lo as int, k as int).push(l@[k as int]));
                k += 1;
            }
            return Some(string_of(p.as_slice()));
        }
        i += 1;
    }
    None
}

/// What `exec` reports: a CLI failure with a runtime error becomes an
/// unsuccessful output carrying the error's detail (or its message); other
/// errors stay errors.
pub fn exec_failure_output(e: AppError) -> (r: Result<super::ExecOutput, AppError>)
    ensures
        match e {
            AppError::Runtime { message, detail } => r matches Ok(out) && out.stdout@.len() == 0 && !out.success
                && out.stderr@ == match detail {
                    Some(d) => d@,
                    None => message@,
                },
            _ => r matches Err(x) && x == e,
        },
{
    match e {
        AppError::Runtime { message, detail } => {
            let stderr = match detail {
                Some(d) => d,
                None => message,
            };
            Ok(super::ExecOutput { stdout: Vec::new(), stderr, success: false })
        },
        other => Err(other),
    }
}

/// `container image pull` arguments for the amd64 image.
pub fn pull_args(image: &str) -> (r: Vec<String>)
    ensures
        strs(r@) == seq!["image"@, "pull"@, "--platform"@, "linux/amd64"@, image@],
{
    let mut args: Vec<String> = Vec::new();
    push_arg(&mut args, "image");
    push_arg(&mut args, "pull");
    push_arg(&mut args, "--platform");
    push_arg(&mut args, "linux/amd64");
    push_arg(&mut args, image);
    assert(strs(args@) =~= seq!["image"@, "pull"@, "--platform"@, "linux/amd64"@, image@]);
    args
}

/// The error when a host file cannot be read for copying in.
pub fn host_read_error(host: &str, cause: &str) -> (r: AppError)
    ensures
        is_runtime_error(r, "cannot read "@ + host@ + ": "@ + cause@, None),
{
    let mut v = chars_of("cannot read ");
    extend_str(&mut v, host);
    extend_str(&mut v, ": ");
    extend_str(&mut v, cause);
    AppError::runtime(string_of(v.as_slice()), None)
}

/// The error when a host file cannot be written when copying out.
pub fn host_write_error(host: &str, cause: &str) -> (r: AppError)
    ensures
        is_runtime_error(r, "cannot write "@ + host@ + ": "@ + cause@, None),
{
    let mut v = chars_of("cannot write ");
    extend_str(&mut v, host);
    extend_str(&mut v, ": ");
    extend_str(&mut v, cause);
    AppError::runtime(string_of(v.as_slice()), None)
}

/// The error when the CLI cannot be started.
pub fn spawn_error(cause: &str) -> (r: AppError)
    ensures
        is_runtime_error(r, "failed to spawn container CLI: "@ + cause@, None),
{
    AppError::runtime(concat("failed to spawn container CLI: ", cause), None)
}

} // verus!
