//! The shell session: working directory and environment, and the pure text steps of a
//! command line (variable expansion, path resolution, argument splitting).
use vstd::prelude::*;
use crate::text::{str_to_chars, chars_to_string, push_str, push_chars, chars_eq};

verus! {

/// An environment as plain values, in the order the variables were first set.
pub type EnvView = Seq<(Seq<char>, Seq<char>)>;

/// The working directory and the environment variables of the shell.
pub struct ShellSession {
    pub current_dir: String,
    pub env: Vec<(String, String)>,
}

impl ShellSession {
    /// The environment as plain values.
    pub open spec fn env_view(&self) -> EnvView {
        self.env@.map_values(|e: (String, String)| (e.0@, e.1@))
    }

    /// Each variable is set once.
    pub open spec fn wf(&self) -> bool {
        env_keys_unique(self.env_view())
    }
}

/// No variable name occurs twice.
pub open spec fn env_keys_unique(env: EnvView) -> bool {
    forall|i: int, j: int| 0 <= i < j < env.len() ==> env[i].0 != env[j].0
}

/// The first index at or after `i` holding variable `k`, or the length.
pub open spec fn env_find(env: EnvView, k: Seq<char>, i: int) -> int
    decreases env.len() - i,
{
    if i < 0 || i >= env.len() {
        env.len() as int
    } else if env[i].0 == k {
        i
    } else {
        env_find(env, k, i + 1)
    }
}

/// Sets variable `k` to `v`: in place when it is set, else at the end.
pub open spec fn env_set(env: EnvView, k: Seq<char>, v: Seq<char>) -> EnvView {
    let i = env_find(env, k, 0);
    if i < env.len() { env.update(i, (k, v)) } else { env.push((k, v)) }
}

/// The value of variable `k`, if set.
pub open spec fn env_get(env: EnvView, k: Seq<char>) -> Option<Seq<char>> {
    let i = env_find(env, k, 0);
    if i < env.len() { Some(env[i].1) } else { None }
}

/// `env_find` from `i` finds no index below `i`, and what it finds holds `k`.
proof fn lemma_env_find(env: EnvView, k: Seq<char>, i: int)
    requires
        0 <= i <= env.len(),
    ensures
        i <= env_find(env, k, i) <= env.len(),
        env_find(env, k, i) < env.len() ==> env[env_find(env, k, i)].0 == k,
        forall|j: int| i <= j < env_find(env, k, i) ==> env[j].0 != k,
    decreases env.len() - i,
{
    if i < env.len() && env[i].0 != k {
        lemma_env_find(env, k, i + 1);
    }
}

/// Setting a variable keeps the names distinct.
proof fn lemma_env_set_unique(env: EnvView, k: Seq<char>, v: Seq<char>)
    requires
        env_keys_unique(env),
    ensures
        env_keys_unique(env_set(env, k, v)),
{
    lemma_env_find(env, k, 0);
}

/// After setting `k` to `v`, reading `k` gives `v` and every other variable reads as before.
pub proof fn lemma_env_set_get(env: EnvView, k: Seq<char>, v: Seq<char>, other: Seq<char>)
    requires
        env_keys_unique(env),
    ensures
        env_get(env_set(env, k, v), k) == Some(v),
        other != k ==> env_get(env_set(env, k, v), other) == env_get(env, other),
{
    let e2 = env_set(env, k, v);
    lemma_env_find(env, k, 0);
    lemma_env_set_unique(env, k, v);
    lemma_env_find(e2, k, 0);
    lemma_env_find(env, other, 0);
    lemma_env_find(e2, other, 0);
    let i = env_find(env, k, 0);
    assert(e2[i].0 == k);
    let j2 = env_find(e2, k, 0);
    if j2 < i {
        assert(e2[j2] == env[j2]);
    }
    if other != k {
        let a = env_find(env, other, 0);
        let b = env_find(e2, other, 0);
        if a < b {
            if a < env.len() {
                if a == i { } else { assert(e2[a] == env[a]); }
            }
        } else if b < a {
            if b < env.len() {
                if b == i { } else { assert(e2[b] == env[b]); }
            } else {
                assert(b == env.len());
                assert(e2[b].0 == k);
            }
        }
        if a == b && a < env.len() && a != i {
            assert(e2[a] == env[a]);
        }
    }
}

/// The session a fresh shell starts with: in `/students/student1`, with `PATH`, `USER` and
/// `SHELL` set.
pub fn init_shell() -> (s: ShellSession)
    ensures
        s.wf(),
        s.current_dir@ == "/students/student1"@,
        s.env_view() == seq![("PATH"@, "/bin:/usr/bin"@), ("USER"@, "student1"@), ("SHELL"@, "/bin/novashell"@)],
{
    let mut env: Vec<(String, String)> = Vec::new();
    env.push((String::from_str("PATH"), String::from_str("/bin:/usr/bin")));
    env.push((String::from_str("USER"), String::from_str("student1")));
    env.push((String::from_str("SHELL"), String::from_str("/bin/novashell")));
    let s = ShellSession { current_dir: String::from_str("/students/student1"), env };
    assert(s.env_view() =~= seq![("PATH"@, "/bin:/usr/bin"@), ("USER"@, "student1"@), ("SHELL"@, "/bin/novashell"@)]);
    proof {
        reveal_strlit("PATH");
        reveal_strlit("USER");
        reveal_strlit("SHELL");
        let e = s.env_view();
        assert(e[0].0[0] != e[1].0[0]);
        assert(e[0].0[0] != e[2].0[0]);
        assert(e[1].0[0] != e[2].0[0]);
    }
    s
}

/// Sets environment variable `k` to `v`.
pub fn set_env(s: &mut ShellSession, k: &str, v: &str)
    requires
        old(s).wf(),
    ensures
        final(s).wf(),
        final(s).current_dir == old(s).current_dir,
        final(s).env_view() == env_set(old(s).env_view(), k@, v@),
{
    let ghost e0 = s.env_view();
    proof {
        lemma_env_find(e0, k@, 0);
        lemma_env_set_unique(e0, k@, v@);
    }
    let kc = str_to_chars(k);
    let mut i: usize = 0;
    while i < s.env.len()
        invariant
            e0 == s.env_view(),
            e0 == old(s).env_view(),
            e0.len() == s.env@.len(),
            s.current_dir == old(s).current_dir,
            env_keys_unique(env_set(e0, k@, v@)),
            kc@ == k@,
            i <= e0.len(),
            env_find(e0, k@, 0) == env_find(e0, k@, i as int),
        decreases e0.len() - i,
    {
        assert(e0[i as int] == (s.env@[i as int].0@, s.env@[i as int].1@));
        let name = str_to_chars(s.env[i].0.as_str());
        if chars_eq(name.as_slice(), kc.as_slice()) {
            assert(e0[i as int].0 == k@);
            assert(env_find(e0, k@, i as int) == i);
            s.env.set(i, (String::from_str(k), String::from_str(v)));
            assert(s.env_view() =~= e0.update(i as int, (k@, v@)));
            assert(env_find(e0, k@, 0) == i);
            assert(s.env_view() == env_set(e0, k@, v@));
            return;
        }
        i = i + 1;
    }
    s.env.push((String::from_str(k), String::from_str(v)));
    assert(s.env_view() =~= e0.push((k@, v@)));
}

/// `s` with every occurrence of `p` replaced by `r`, scanning from the left without overlap.
pub open spec fn replace_all(s: Seq<char>, p: Seq<char>, r: Seq<char>) -> Seq<char>
    decreases s.len(),
{
    if p.len() == 0 || s.len() < p.len() {
        s
    } else if s.subrange(0, p.len() as int) == p {
        r + replace_all(s.subrange(p.len() as int, s.len() as int), p, r)
    } else {
        seq![s[0]] + replace_all(s.subrange(1, s.len() as int), p, r)
    }
}

/// `s` with `$NAME` replaced by the value of each variable in turn, from the first set.
pub open spec fn expand_from(env: EnvView, s: Seq<char>, i: int) -> Seq<char>
    decreases env.len() - i,
{
    if i < 0 || i >= env.len() {
        s
    } else {
        expand_from(env, replace_all(s, seq!['$'] + env[i].0, env[i].1), i + 1)
    }
}

/// `s` with the environment's variables expanded.
pub open spec fn expand_spec(env: EnvView, s: Seq<char>) -> Seq<char> {
    expand_from(env, s, 0)
}

/// Replaces every occurrence of `p` in `s` by `r`.
pub fn replace_all_chars(s: &[char], p: &[char], r: &[char]) -> (out: Vec<char>)
    ensures
        out@ == replace_all(s@, p@, r@),
{
    let mut out: Vec<char> = Vec::new();
    if p.len() == 0 {
        push_chars(&mut out, s);
        return out;
    }
    let mut i: usize = 0;
    assert(s@.subrange(0, s@.len() as int) =~= s@);
    while i < s.len()
        invariant
            p@.len() > 0,
            i <= s@.len(),
            out@ + replace_all(s@.subrange(i as int, s@.len() as int), p@, r@) == replace_all(s@, p@, r@),
        decreases s@.len() - i,
    {
        let ghost rest = s@.subrange(i as int, s@.len() as int);
        if s.len() - i < p.len() {
            let ghost o = out@;
            let mut j: usize = i;
            while j < s.len()
                invariant
                    i <= j <= s@.len(),
                    out@ == o + s@.subrange(i as int, j as int),
                decreases s@.len() - j,
            {
                out.push(s[j]);
                j = j + 1;
                assert(out@ =~= o + s@.subrange(i as int, j as int));
            }
            assert(s@.subrange(s@.len() as int, s@.len() as int) =~= Seq::<char>::empty());
            assert(out@ + replace_all(s@.subrange(s@.len() as int, s@.len() as int), p@, r@) =~= out@);
            i = s.len();
        } else {
            let mut k: usize = 0;
            let mut same = true;
            while k < p.len()
                invariant
                    i + p@.len() <= s@.len(),
                    s@.len() == s.len(),
                    k <= p@.len(),
                    same == (forall|m: int| 0 <= m < k ==> s@[i + m] == p@[m]),
                decreases p@.len() - k,
            {
                let idx: usize = i + k;
                if s[idx] != p[k] {
                    same = false;
                }
                k = k + 1;
            }
            if same {
                assert(rest.subrange(0, p@.len() as int) =~= p@);
                assert(rest.subrange(p@.len() as int, rest.len() as int) =~= s@.subrange(i + p@.len(), s@.len() as int));
                let ghost o = out@;
                push_chars(&mut out, r);
                assert(o + (r@ + replace_all(s@.subrange(i + p@.len(), s@.len() as int), p@, r@))
                    =~= out@ + replace_all(s@.subrange(i + p@.len(), s@.len() as int), p@, r@));
                i = i + p.len();
            } else {
                assert(rest.subrange(0, p@.len() as int) != p@) by {
                    let m = choose|m: int| 0 <= m < p@.len() && s@[i + m] != p@[m];
                    assert(rest.subrange(0, p@.len() as int)[m] != p@[m]);
                }
                assert(rest.subrange(1, rest.len() as int) =~= s@.subrange(i + 1, s@.len() as int));
                let ghost o = out@;
                out.push(s[i]);
                assert(o + (seq![rest[0]] + replace_all(s@.subrange(i + 1, s@.len() as int), p@, r@))
                    =~= out@ + replace_all(s@.subrange(i + 1, s@.len() as int), p@, r@));
                i = i + 1;
            }
        }
    }
    assert(s@.subrange(i as int, s@.len() as int) =~= Seq::<char>::empty());
    assert(out@ + Seq::<char>::empty() =~= out@);
    out
}

/// Expands `$NAME` for each environment variable, in the order they were set.
pub fn expand_env_variables(sh: &ShellSession, s: &str) -> (r: String)
    ensures
        r@ == expand_spec(sh.env_view(), s@),
{
    let ghost env = sh.env_view();
    let mut cur = str_to_chars(s);
    let mut i: usize = 0;
    while i < sh.env.len()
        invariant
            env == sh.env_view(),
            env.len() == sh.env@.len(),
            i <= env.len(),
            expand_from(env, cur@, i as int) == expand_spec(env, s@),
        decreases env.len() - i,
    {
        assert(env[i as int] == (sh.env@[i as int].0@, sh.env@[i as int].1@));
        let mut pat: Vec<char> = Vec::new();
        pat.push('$');
        push_str(&mut pat, sh.env[i].0.as_str());
        let val = str_to_chars(sh.env[i].1.as_str());
        cur = replace_all_chars(cur.as_slice(), pat.as_slice(), val.as_slice());
        i = i + 1;
    }
    chars_to_string(cur.as_slice())
}

/// `path` made absolute against the working directory `cwd`.
pub open spec fn resolve_spec(cwd: Seq<char>, path: Seq<char>) -> Seq<char> {
    if path.len() > 0 && path[0] == '/' {
        path
    } else if cwd == "/"@ {
        "/"@ + path
    } else {
        cwd + "/"@ + path
    }
}

/// `path` made absolute against the session's working directory.
pub fn resolve_absolute_path(sh: &ShellSession, path: &str) -> (r: String)
    ensures
        r@ == resolve_spec(sh.current_dir@, path@),
{
    let p = str_to_chars(path);
    if p.len() > 0 && p[0] == '/' {
        return String::from_str(path);
    }
    let mut out: Vec<char> = Vec::new();
    let cwd = str_to_chars(sh.current_dir.as_str());
    let root = str_to_chars("/");
    if chars_eq(cwd.as_slice(), root.as_slice()) {
        push_str(&mut out, "/");
        push_chars(&mut out, p.as_slice());
    } else {
        push_chars(&mut out, cwd.as_slice());
        push_str(&mut out, "/");
        push_chars(&mut out, p.as_slice());
    }
    chars_to_string(out.as_slice())
}

/// The splitting state after some characters: finished arguments, the argument being read,
/// and whether a quotation is open.
pub type SplitState = (Seq<Seq<char>>, Seq<char>, bool);

/// One character of argument splitting: a double quote toggles quoting, an unquoted space
/// ends a non-empty argument, anything else is part of the argument.
pub open spec fn split_step(st: SplitState, c: char) -> SplitState {
    if c == '"' {
        (st.0, st.1, !st.2)
    } else if c == ' ' && !st.2 {
        if st.1.len() > 0 { (st.0.push(st.1), Seq::empty(), st.2) } else { st }
    } else {
        (st.0, st.1.push(c), st.2)
    }
}

/// The splitting state after the first `n` characters of `s`.
pub open spec fn split_state(s: Seq<char>, n: int) -> SplitState
    decreases n,
{
    if n <= 0 {
        (Seq::empty(), Seq::empty(), false)
    } else {
        split_step(split_state(s, n - 1), s[n - 1])
    }
}

/// The arguments of `s`: separated by unquoted spaces, with the quotes removed.
pub open spec fn split_args_spec(s: Seq<char>) -> Seq<Seq<char>> {
    let st = split_state(s, s.len() as int);
    if st.1.len() > 0 { st.0.push(st.1) } else { st.0 }
}

/// The views of a list of strings.
pub open spec fn strings_view(v: Seq<String>) -> Seq<Seq<char>> {
    v.map_values(|x: String| x@)
}

/// Splits `s` into arguments at unquoted spaces; double quotes group and are dropped.
pub fn split_arguments(s: &str) -> (r: Vec<String>)
    ensures
        strings_view(r@) == split_args_spec(s@),
{
    let cs = str_to_chars(s);
    let mut args: Vec<String> = Vec::new();
    let mut arg: Vec<char> = Vec::new();
    let mut in_quotes = false;
    let mut i: usize = 0;
    while i < cs.len()
        invariant
            cs@ == s@,
            i <= cs@.len(),
            split_state(s@, i as int) == (strings_view(args@), arg@, in_quotes),
        decreases cs@.len() - i,
    {
        let c = cs[i];
        if c == '"' {
            in_quotes = !in_quotes;
        } else if c == ' ' && !in_quotes {
            if arg.len() > 0 {
                let ghost a0 = strings_view(args@);
                let ghost g0 = arg@;
                args.push(chars_to_string(arg.as_slice()));
                arg = Vec::new();
                assert(strings_view(args@) =~= a0.push(g0));
                assert(arg@ =~= Seq::<char>::empty());
            }
        } else {
            arg.push(c);
        }
        i = i + 1;
    }
    if arg.len() > 0 {
        let ghost a0 = strings_view(args@);
        args.push(chars_to_string(arg.as_slice()));
        assert(strings_view(args@) =~= a0.push(arg@));
    }
    args
}

/// The home directory of a user: `/` for root, `/students/<name>` otherwise.
pub open spec fn home_dir(username: Seq<char>, uid: u32) -> Seq<char> {
    if uid == 0 { "/"@ } else { "/students/"@ + username }
}

/// Moves the session to the user's home directory and sets `USER`.
pub fn update_shell_session(sh: &mut ShellSession, username: &str, uid: u32)
    requires
        old(sh).wf(),
    ensures
        final(sh).wf(),
        final(sh).current_dir@ == home_dir(username@, uid),
        final(sh).env_view() == env_set(old(sh).env_view(), "USER"@, username@),
{
    if uid == 0 {
        sh.current_dir = String::from_str("/");
    } else {
        let mut h: Vec<char> = Vec::new();
        push_str(&mut h, "/students/");
        push_str(&mut h, username);
        sh.current_dir = chars_to_string(h.as_slice());
    }
    set_env(sh, "USER", username);
}

} // verus!
