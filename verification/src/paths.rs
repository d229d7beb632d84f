//! Path arithmetic on `/`-separated paths held as text.
use vstd::prelude::*;
use crate::text::{to_chars, from_chars};

verus! {

/// `rel` appended to `base` as `PathBuf::join` does on Unix: an absolute
/// `rel` replaces `base`; otherwise a `/` goes between them unless `base`
/// is empty or already ends with one.
pub open spec fn join_path_spec(base: Seq<char>, rel: Seq<char>) -> Seq<char> {
    if rel.len() > 0 && rel[0] == '/' {
        rel
    } else if base.len() > 0 && base.last() != '/' {
        base + seq!['/'] + rel
    } else {
        base + rel
    }
}

/// `rel` appended to `base` (see `join_path_spec`).
pub fn join_path(base: &str, rel: &str) -> (r: String)
    ensures
        r@ == join_path_spec(base@, rel@),
{
    let b = to_chars(base);
    let r = to_chars(rel);
    if r.len() > 0 && r[0] == '/' {
        return from_chars(&r);
    }
    let mut out = b.clone();
    if b.len() > 0 && b[b.len() - 1] != '/' {
        out.push('/');
    }
    let mut rr = r;
    out.append(&mut rr);
    from_chars(&out)
}


/// The pieces of a `:`-separated path list, given that `cur` has been read
/// of the current piece; empty pieces are dropped.
pub open spec fn split_list_from(s: Seq<char>, cur: Seq<char>) -> Seq<Seq<char>>
    decreases s.len(),
{
    if s.len() == 0 {
        if cur.len() > 0 {
            seq![cur]
        } else {
            Seq::empty()
        }
    } else if s[0] == ':' {
        (if cur.len() > 0 {
            seq![cur]
        } else {
            Seq::empty()
        }) + split_list_from(s.drop_first(), Seq::empty())
    } else {
        split_list_from(s.drop_first(), cur.push(s[0]))
    }
}

/// The non-empty pieces of a `:`-separated path list, in order.
pub open spec fn split_list_spec(s: Seq<char>) -> Seq<Seq<char>> {
    split_list_from(s, Seq::empty())
}

/// The pieces of a `:`-separated path list, empty ones dropped (see
/// `split_list_spec`).
pub fn split_path_list(s: &str) -> (r: Vec<String>)
    ensures
        r@.len() == split_list_spec(s@).len(),
        forall|i: int| 0 <= i < r@.len() ==> #[trigger] r@[i]@ == split_list_spec(s@)[i],
{
    let v = to_chars(s);
    let mut out: Vec<String> = Vec::new();
    let mut cur: Vec<char> = Vec::new();
    let ghost mut done: Seq<Seq<char>> = Seq::empty();
    let mut i: usize = 0;
    proof {
        assert(v@.skip(0) =~= v@);
    }
    while i < v.len()
        invariant
            v@ == s@,
            i <= v@.len(),
            out@.len() == done.len(),
            forall|k: int| 0 <= k < out@.len() ==> #[trigger] out@[k]@ == done[k],
            done + split_list_from(v@.skip(i as int), cur@) == split_list_spec(s@),
        decreases v@.len() - i,
    {
        proof {
            assert(v@.skip(i as int).drop_first() =~= v@.skip(i + 1));
        }
        if v[i] == ':' {
            if cur.len() > 0 {
                proof {
                    assert(done + split_list_from(v@.skip(i as int), cur@) =~= done.push(cur@)
                        + split_list_from(v@.skip(i + 1), Seq::empty()));
                    done = done.push(cur@);
                }
                out.push(from_chars(&cur));
            } else {
                proof {
                    assert(done + split_list_from(v@.skip(i as int), cur@) =~= done
                        + split_list_from(v@.skip(i + 1), Seq::empty()));
                }
            }
            cur = Vec::new();
        } else {
            cur.push(v[i]);
        }
        i += 1;
    }
    if cur.len() > 0 {
        proof {
            done = done.push(cur@);
        }
        out.push(from_chars(&cur));
    }
    proof {
        assert(split_list_spec(s@) =~= done);
    }
    out
}

/// `s` with every `:` removed.
pub open spec fn without_colons(s: Seq<char>) -> Seq<char>
    decreases s.len(),
{
    if s.len() == 0 {
        s
    } else if s[0] == ':' {
        without_colons(s.drop_first())
    } else {
        seq![s[0]] + without_colons(s.drop_first())
    }
}

/// The pieces laid end to end.
pub open spec fn concat_all(parts: Seq<Seq<char>>) -> Seq<char>
    decreases parts.len(),
{
    if parts.len() == 0 {
        Seq::empty()
    } else {
        parts[0] + concat_all(parts.drop_first())
    }
}

proof fn lemma_concat_all_prefix(a: Seq<Seq<char>>, b: Seq<Seq<char>>)
    ensures
        concat_all(a + b) == concat_all(a) + concat_all(b),
    decreases a.len(),
{
    if a.len() == 0 {
        assert(a + b =~= b);
    } else {
        lemma_concat_all_prefix(a.drop_first(), b);
        assert((a + b).drop_first() =~= a.drop_first() + b);
    }
}

proof fn lemma_split_from(s: Seq<char>, cur: Seq<char>)
    requires
        forall|i: int| 0 <= i < cur.len() ==> cur[i] != ':',
    ensures
        concat_all(split_list_from(s, cur)) == cur + without_colons(s),
        forall|i: int| 0 <= i < split_list_from(s, cur).len() ==> {
            let p = #[trigger] split_list_from(s, cur)[i];
            p.len() > 0 && forall|j: int| 0 <= j < p.len() ==> p[j] != ':'
        },
    decreases s.len(),
{
    let e = Seq::<Seq<char>>::empty();
    if s.len() == 0 {
        if cur.len() > 0 {
            assert(seq![cur].drop_first() =~= e);
            assert(concat_all(seq![cur]) =~= cur + concat_all(e));
        }
        assert(cur + without_colons(s) =~= cur);
    } else if s[0] == ':' {
        lemma_split_from(s.drop_first(), Seq::empty());
        let head = if cur.len() > 0 {
            seq![cur]
        } else {
            e
        };
        lemma_concat_all_prefix(head, split_list_from(s.drop_first(), Seq::empty()));
        if cur.len() > 0 {
            assert(seq![cur].drop_first() =~= e);
            assert(concat_all(seq![cur]) == cur + concat_all(e));
            assert(concat_all(head) =~= cur);
        } else {
            assert(concat_all(head) =~= cur);
        }
        assert(Seq::<char>::empty() + without_colons(s.drop_first()) =~= without_colons(
            s.drop_first(),
        ));
        let r = split_list_from(s, cur);
        let t = split_list_from(s.drop_first(), Seq::empty());
        assert(r == head + t);
        assert forall|i: int| 0 <= i < r.len() implies {
            let p = #[trigger] r[i];
            p.len() > 0 && forall|j: int| 0 <= j < p.len() ==> p[j] != ':'
        } by {
            if i >= head.len() {
                assert(r[i] == t[i - head.len()]);
            }
        }
    } else {
        lemma_split_from(s.drop_first(), cur.push(s[0]));
        assert(cur.push(s[0]) + without_colons(s.drop_first()) =~= cur + without_colons(s));
    }
}

/// Splitting a path list loses only the separators: the pieces laid end to
/// end give the list without its `:`s, and every piece is non-empty and
/// holds no `:`.
pub proof fn lemma_split_list_loses_only_separators(s: Seq<char>)
    ensures
        concat_all(split_list_spec(s)) == without_colons(s),
        forall|i: int| 0 <= i < split_list_spec(s).len() ==> {
            let p = #[trigger] split_list_spec(s)[i];
            p.len() > 0 && forall|j: int| 0 <= j < p.len() ==> p[j] != ':'
        },
{
    lemma_split_from(s, Seq::empty());
    assert(Seq::<char>::empty() + without_colons(s) =~= without_colons(s));
}

/// The values of the environment variables that the directory layout
/// depends on (`None` where a variable is unset or not valid text), and
/// the current directory when it can be read.
#[derive(Debug, Clone)]
pub struct XdgEnv {
    pub home: Option<String>,
    pub user_profile: Option<String>,
    pub current_dir: Option<String>,
    pub config_home: Option<String>,
    pub config_dirs: Option<String>,
    pub data_home: Option<String>,
    pub data_dirs: Option<String>,
    pub state_home: Option<String>,
    pub cache_home: Option<String>,
    pub runtime_dir: Option<String>,
}

/// The base directories of the XDG layout.
#[derive(Debug, Clone)]
pub struct XdgPaths {
    pub config_home: String,
    pub config_dirs: Vec<String>,
    pub data_home: String,
    pub data_dirs: Vec<String>,
    pub state_home: String,
    pub cache_home: String,
    pub runtime_dir: Option<String>,
}

/// The home directory: `HOME`, else `USERPROFILE`, else the current
/// directory, else `.`.
pub open spec fn home_dir_spec(env: XdgEnv) -> Seq<char> {
    match env.home {
        Some(h) => h@,
        None => match env.user_profile {
            Some(h) => h@,
            None => match env.current_dir {
                Some(d) => d@,
                None => "."@,
            },
        },
    }
}

/// The value of a variable when set, else `default`.
pub open spec fn var_or(v: Option<String>, default: Seq<char>) -> Seq<char> {
    match v {
        Some(s) => s@,
        None => default,
    }
}

/// The view of a list of paths.
pub open spec fn paths_view(v: Seq<String>) -> Seq<Seq<char>> {
    v.map_values(|s: String| s@)
}

/// The layout that `env` gives: each base directory from its variable,
/// or from its default under the home directory (or, for the lists, the
/// standard system directories).
pub open spec fn xdg_paths_spec(env: XdgEnv, p: XdgPaths) -> bool {
    let home = home_dir_spec(env);
    &&& p.config_home@ == var_or(env.config_home, join_path_spec(home, ".config"@))
    &&& paths_view(p.config_dirs@) == split_list_spec(var_or(env.config_dirs, "/etc/xdg"@))
    &&& p.data_home@ == var_or(
        env.data_home,
        join_path_spec(join_path_spec(home, ".local"@), "share"@),
    )
    &&& paths_view(p.data_dirs@) == split_list_spec(
        var_or(env.data_dirs, "/usr/local/share:/usr/share"@),
    )
    &&& p.state_home@ == var_or(
        env.state_home,
        join_path_spec(join_path_spec(home, ".local"@), "state"@),
    )
    &&& p.cache_home@ == var_or(env.cache_home, join_path_spec(home, ".cache"@))
    &&& match (p.runtime_dir, env.runtime_dir) {
        (Some(a), Some(b)) => a@ == b@,
        (None, None) => true,
        _ => false,
    }
}

/// Each base directory comes from its own variable when that is set, and
/// from its own default under the home directory otherwise, whatever the
/// other variables hold; the directory lists come from their own variables
/// split at `:`; the runtime directory is `XDG_RUNTIME_DIR` or none.
pub proof fn lemma_each_dir_from_its_own_variable(env: XdgEnv, p: XdgPaths)
    requires
        xdg_paths_spec(env, p),
    ensures
        env.config_home matches Some(v) ==> p.config_home@ == v@,
        env.data_home matches Some(v) ==> p.data_home@ == v@,
        env.state_home matches Some(v) ==> p.state_home@ == v@,
        env.cache_home matches Some(v) ==> p.cache_home@ == v@,
        env.config_home is None ==> p.config_home@ == join_path_spec(home_dir_spec(env), ".config"@),
        env.data_home is None ==> p.data_home@ == join_path_spec(
            join_path_spec(home_dir_spec(env), ".local"@),
            "share"@,
        ),
        env.state_home is None ==> p.state_home@ == join_path_spec(
            join_path_spec(home_dir_spec(env), ".local"@),
            "state"@,
        ),
        env.cache_home is None ==> p.cache_home@ == join_path_spec(home_dir_spec(env), ".cache"@),
        env.config_dirs matches Some(v) ==> paths_view(p.config_dirs@) == split_list_spec(v@),
        env.data_dirs matches Some(v) ==> paths_view(p.data_dirs@) == split_list_spec(v@),
        env.runtime_dir matches Some(v) ==> (p.runtime_dir matches Some(r) && r@ == v@),
        env.runtime_dir is None ==> p.runtime_dir is None,
{
}

proof fn lemma_split_no_colon(s: Seq<char>, cur: Seq<char>)
    requires
        forall|i: int| 0 <= i < s.len() ==> #[trigger] s[i] != ':',
    ensures
        split_list_from(s, cur) == (if (cur + s).len() > 0 {
            seq![cur + s]
        } else {
            Seq::<Seq<char>>::empty()
        }),
    decreases s.len(),
{
    if s.len() == 0 {
        assert(cur + s =~= cur);
    } else {
        let t = s.drop_first();
        assert forall|i: int| 0 <= i < t.len() implies #[trigger] t[i] != ':' by {
            assert(t[i] == s[i + 1]);
        }
        assert(s[0] != ':');
        lemma_split_no_colon(t, cur.push(s[0]));
        assert(cur.push(s[0]) + t =~= cur + s);
    }
}

proof fn lemma_split_at_colon(a: Seq<char>, b: Seq<char>, cur: Seq<char>)
    requires
        forall|i: int| 0 <= i < a.len() ==> #[trigger] a[i] != ':',
    ensures
        split_list_from(a + seq![':'] + b, cur) == (if (cur + a).len() > 0 {
            seq![cur + a]
        } else {
            Seq::<Seq<char>>::empty()
        }) + split_list_from(b, Seq::empty()),
    decreases a.len(),
{
    let s = a + seq![':'] + b;
    if a.len() == 0 {
        assert(cur + a =~= cur);
        assert(s[0] == ':');
        assert(s.drop_first() =~= b);
    } else {
        let t = a.drop_first();
        assert forall|i: int| 0 <= i < t.len() implies #[trigger] t[i] != ':' by {
            assert(t[i] == a[i + 1]);
        }
        assert(s[0] == a[0]);
        assert(s.drop_first() =~= t + seq![':'] + b);
        lemma_split_at_colon(t, b, cur.push(a[0]));
        assert(cur.push(a[0]) + t =~= cur + a);
    }
}

/// Without `XDG_CONFIG_DIRS` the configuration list is `/etc/xdg`; without
/// `XDG_DATA_DIRS` the data list is `/usr/local/share` then `/usr/share`.
pub proof fn lemma_default_dir_lists(env: XdgEnv, p: XdgPaths)
    requires
        xdg_paths_spec(env, p),
    ensures
        env.config_dirs is None ==> paths_view(p.config_dirs@) == seq!["/etc/xdg"@],
        env.data_dirs is None ==> paths_view(p.data_dirs@) == seq![
            "/usr/local/share"@,
            "/usr/share"@,
        ],
{
    reveal_strlit("/etc/xdg");
    reveal_strlit("/usr/local/share:/usr/share");
    reveal_strlit("/usr/local/share");
    reveal_strlit("/usr/share");
    let e = Seq::<char>::empty();
    lemma_split_no_colon("/etc/xdg"@, e);
    assert(e + "/etc/xdg"@ =~= "/etc/xdg"@);
    let a = "/usr/local/share"@;
    let b = "/usr/share"@;
    assert("/usr/local/share:/usr/share"@ =~= a + seq![':'] + b);
    lemma_split_at_colon(a, b, e);
    lemma_split_no_colon(b, e);
    assert(e + a =~= a);
    assert(e + b =~= b);
    assert(seq![a] + seq![b] =~= seq![a, b]);
}

/// The home directory is `HOME` when it is set, else `USERPROFILE`, else
/// the current directory, else `.`.
pub proof fn lemma_home_dir_order(env: XdgEnv)
    ensures
        env.home matches Some(h) ==> home_dir_spec(env) == h@,
        env.home is None ==> (env.user_profile matches Some(u) ==> home_dir_spec(env) == u@),
        env.home is None && env.user_profile is None ==> (env.current_dir matches Some(d)
            ==> home_dir_spec(env) == d@),
        env.home is None && env.user_profile is None && env.current_dir is None ==> home_dir_spec(env)
            == "."@,
{
}

/// With `HOME=h` (not empty, not ending in `/`) and the base-directory
/// variables unset, the directories are `h/.config`, `h/.local/share`,
/// `h/.local/state` and `h/.cache`.
pub proof fn lemma_default_dirs_under_home(env: XdgEnv, p: XdgPaths, h: Seq<char>)
    requires
        xdg_paths_spec(env, p),
        env.home matches Some(x) && x@ == h,
        h.len() > 0,
        h.last() != '/',
    ensures
        env.config_home is None ==> p.config_home@ == h + "/.config"@,
        env.data_home is None ==> p.data_home@ == h + "/.local/share"@,
        env.state_home is None ==> p.state_home@ == h + "/.local/state"@,
        env.cache_home is None ==> p.cache_home@ == h + "/.cache"@,
{
    reveal_strlit(".config");
    reveal_strlit(".local");
    reveal_strlit("share");
    reveal_strlit("state");
    reveal_strlit(".cache");
    reveal_strlit("/.config");
    reveal_strlit("/.local/share");
    reveal_strlit("/.local/state");
    reveal_strlit("/.cache");
    let local = h + seq!['/'] + ".local"@;
    assert(join_path_spec(h, ".local"@) == local);
    assert(local.last() == 'l');
    assert(join_path_spec(h, ".config"@) =~= h + "/.config"@);
    assert(join_path_spec(h, ".cache"@) =~= h + "/.cache"@);
    assert(join_path_spec(local, "share"@) =~= h + "/.local/share"@);
    assert(join_path_spec(local, "state"@) =~= h + "/.local/state"@);
}

/// The home directory (see `home_dir_spec`).
pub fn home_dir(env: &XdgEnv) -> (r: String)
    ensures
        r@ == home_dir_spec(*env),
{
    match &env.home {
        Some(h) => h.clone(),
        None => match &env.user_profile {
            Some(h) => h.clone(),
            None => match &env.current_dir {
                Some(d) => d.clone(),
                None => String::from_str("."),
            },
        },
    }
}

fn var_or_else(v: &Option<String>, default: String) -> (r: String)
    ensures
        r@ == var_or(*v, default@),
{
    match v {
        Some(s) => s.clone(),
        None => default,
    }
}

fn split_to_vec(s: &str) -> (r: Vec<String>)
    ensures
        paths_view(r@) == split_list_spec(s@),
{
    let r = split_path_list(s);
    proof {
        assert(paths_view(r@) =~= split_list_spec(s@));
    }
    r
}

/// The XDG base directories that `env` gives (see `xdg_paths_spec`).
pub fn xdg_paths(env: &XdgEnv) -> (p: XdgPaths)
    ensures
        xdg_paths_spec(*env, p),
{
    let home = home_dir(env);
    let config_home = var_or_else(&env.config_home, join_path(home.as_str(), ".config"));
    let config_dirs_text = var_or_else(&env.config_dirs, String::from_str("/etc/xdg"));
    let config_dirs = split_to_vec(config_dirs_text.as_str());
    let local = join_path(home.as_str(), ".local");
    let data_home = var_or_else(&env.data_home, join_path(local.as_str(), "share"));
    let data_dirs_text = var_or_else(
        &env.data_dirs,
        String::from_str("/usr/local/share:/usr/share"),
    );
    let data_dirs = split_to_vec(data_dirs_text.as_str());
    let state_home = var_or_else(&env.state_home, join_path(local.as_str(), "state"));
    let cache_home = var_or_else(&env.cache_home, join_path(home.as_str(), ".cache"));
    let runtime_dir = match &env.runtime_dir {
        Some(d) => Some(d.clone()),
        None => None,
    };
    XdgPaths {
        config_home,
        config_dirs,
        data_home,
        data_dirs,
        state_home,
        cache_home,
        runtime_dir,
    }
}

/// The application's name, which names its directories.
pub open spec fn app_name() -> Seq<char> {
    "afkaracode"@
}

/// The application's configuration, data, state and cache directories:
/// a directory named after it in each base directory.
pub fn app_dirs(x: &XdgPaths) -> (r: (String, String, String, String))
    ensures
        r.0@ == join_path_spec(x.config_home@, app_name()),
        r.1@ == join_path_spec(x.data_home@, app_name()),
        r.2@ == join_path_spec(x.state_home@, app_name()),
        r.3@ == join_path_spec(x.cache_home@, app_name()),
{
    (
        join_path(x.config_home.as_str(), "afkaracode"),
        join_path(x.data_home.as_str(), "afkaracode"),
        join_path(x.state_home.as_str(), "afkaracode"),
        join_path(x.cache_home.as_str(), "afkaracode"),
    )
}

/// The plugin directory inside the application's configuration directory.
pub fn user_plugin_dir(app_config_dir: &str) -> (r: String)
    ensures
        r@ == join_path_spec(app_config_dir@, "plugins"@),
{
    join_path(app_config_dir, "plugins")
}

/// The plugin directory that each system configuration directory may hold:
/// `<dir>/afkaracode/plugins`.
pub fn system_plugin_candidates(config_dirs: &Vec<String>) -> (r: Vec<String>)
    ensures
        r@.len() == config_dirs@.len(),
        forall|i: int| 0 <= i < r@.len() ==> #[trigger] r@[i]@ == join_path_spec(
            join_path_spec(config_dirs@[i]@, app_name()),
            "plugins"@,
        ),
{
    let mut r: Vec<String> = Vec::new();
    let mut i: usize = 0;
    while i < config_dirs.len()
        invariant
            i <= config_dirs@.len(),
            r@.len() == i,
            forall|k: int| 0 <= k < i ==> #[trigger] r@[k]@ == join_path_spec(
                join_path_spec(config_dirs@[k]@, app_name()),
                "plugins"@,
            ),
        decreases config_dirs@.len() - i,
    {
        let d = join_path(config_dirs[i].as_str(), "afkaracode");
        r.push(join_path(d.as_str(), "plugins"));
        i += 1;
    }
    r
}

/// The candidates that exist, in order.
pub open spec fn existing_spec(candidates: Seq<String>, exists: Seq<bool>) -> Seq<Seq<char>>
    decreases candidates.len(),
{
    if candidates.len() == 0 {
        Seq::empty()
    } else if exists[candidates.len() - 1] {
        existing_spec(candidates.drop_last(), exists.take(candidates.len() - 1)).push(
            candidates.last()@,
        )
    } else {
        existing_spec(candidates.drop_last(), exists.take(candidates.len() - 1))
    }
}

/// The directories searched for plugins: the user's plugin directory first,
/// then each system candidate that exists (`exists[i]` tells whether
/// `candidates[i]` does).
pub fn plugin_dirs(user_dir: String, candidates: &Vec<String>, exists: &Vec<bool>) -> (r: Vec<
    String,
>)
    requires
        exists@.len() == candidates@.len(),
    ensures
        paths_view(r@) == seq![user_dir@] + existing_spec(candidates@, exists@),
{
    let ghost u = user_dir@;
    let mut r: Vec<String> = Vec::new();
    r.push(user_dir);
    let mut i: usize = 0;
    while i < candidates.len()
        invariant
            i <= candidates@.len(),
            exists@.len() == candidates@.len(),
            paths_view(r@) == seq![u] + existing_spec(
                candidates@.take(i as int),
                exists@.take(i as int),
            ),
        decreases candidates@.len() - i,
    {
        let ghost before = paths_view(r@);
        proof {
            let c = candidates@.take(i + 1);
            assert(c.drop_last() =~= candidates@.take(i as int));
            assert(exists@.take(i + 1).take(i as int) =~= exists@.take(i as int));
        }
        if exists[i] {
            r.push(candidates[i].clone());
            proof {
                assert(paths_view(r@) =~= before.push(candidates@[i as int]@));
            }
        }
        i += 1;
    }
    proof {
        assert(candidates@.take(i as int) =~= candidates@);
        assert(exists@.take(i as int) =~= exists@);
    }
    r
}

/// The last position of `c` in `s`, or -1.
pub open spec fn last_index_of(s: Seq<char>, c: char) -> int
    decreases s.len(),
{
    if s.len() == 0 {
        -1
    } else if s.last() == c {
        s.len() - 1
    } else {
        last_index_of(s.drop_last(), c)
    }
}

/// The extension of a file name, as `Path::extension` gives it: the text
/// after the last `.`, unless there is no `.`, the only `.` is the first
/// character, or the name is `..`.
pub open spec fn extension_spec(name: Seq<char>) -> Option<Seq<char>> {
    let k = last_index_of(name, '.');
    if name == ".."@ || k <= 0 {
        None
    } else {
        Some(name.skip(k + 1))
    }
}

/// Whether a directory entry with file name `name` is a Lua script: its
/// extension is exactly `lua`.
pub fn is_lua_script(name: &str) -> (b: bool)
    ensures
        b == (extension_spec(name@) == Some("lua"@)),
{
    let v = to_chars(name);
    proof {
        reveal_strlit("..");
        reveal_strlit("lua");
    }
    if v.len() == 2 && v[0] == '.' && v[1] == '.' {
        proof {
            assert(name@ =~= ".."@);
        }
        return false;
    }
    let mut k: usize = v.len();
    proof {
        assert(name@.take(k as int) =~= name@);
    }
    while k > 0 && v[k - 1] != '.'
        invariant
            k <= v@.len(),
            v@ == name@,
            last_index_of(name@, '.') == last_index_of(name@.take(k as int), '.'),
        decreases k,
    {
        proof {
            assert(name@.take(k as int).drop_last() =~= name@.take(k - 1));
        }
        k -= 1;
    }
    proof {
        assert(name@ != ".."@);
        if k > 0 {
            assert(last_index_of(name@.take(k as int), '.') == k - 1);
        } else {
            assert(name@.take(0).len() == 0);
        }
    }
    if k <= 1 {
        return false;
    }
    let ok = v.len() - k == 3 && v[k] == 'l' && v[k + 1] == 'u' && v[k + 2] == 'a';
    proof {
        let ext = name@.skip(k as int);
        if ok {
            assert(ext =~= "lua"@);
        } else if ext.len() == 3 {
            assert(ext[0] == v@[k as int] && ext[1] == v@[k + 1] && ext[2] == v@[k + 2]);
            assert(ext != "lua"@);
        } else {
            assert(ext.len() != "lua"@.len());
        }
    }
    ok
}

/// The names among `names` that are Lua scripts, in order.
pub open spec fn lua_scripts_spec(names: Seq<String>) -> Seq<Seq<char>>
    decreases names.len(),
{
    if names.len() == 0 {
        Seq::empty()
    } else if extension_spec(names.last()@) == Some("lua"@) {
        lua_scripts_spec(names.drop_last()).push(names.last()@)
    } else {
        lua_scripts_spec(names.drop_last())
    }
}

/// The entries of a directory, given by file name, that are Lua scripts
/// (see `is_lua_script`), in order.
pub fn lua_scripts(names: &Vec<String>) -> (r: Vec<String>)
    ensures
        paths_view(r@) == lua_scripts_spec(names@),
{
    let mut r: Vec<String> = Vec::new();
    let mut i: usize = 0;
    while i < names.len()
        invariant
            i <= names@.len(),
            paths_view(r@) == lua_scripts_spec(names@.take(i as int)),
        decreases names@.len() - i,
    {
        let ghost before = paths_view(r@);
        proof {
            assert(names@.take(i + 1).drop_last() =~= names@.take(i as int));
        }
        if is_lua_script(names[i].as_str()) {
            r.push(names[i].clone());
            proof {
                assert(paths_view(r@) =~= before.push(names@[i as int]@));
            }
        }
        i += 1;
    }
    proof {
        assert(names@.take(i as int) =~= names@);
    }
    r
}

} // verus!
