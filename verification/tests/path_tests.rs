use afkaracode::paths::{
    app_dirs, home_dir, is_lua_script, join_path, plugin_dirs, split_path_list,
    system_plugin_candidates, user_plugin_dir, xdg_paths, XdgEnv,
};
use std::path::PathBuf;

fn env() -> XdgEnv {
    XdgEnv {
        home: Some("/home/u".to_string()),
        user_profile: None,
        current_dir: None,
        config_home: None,
        config_dirs: None,
        data_home: None,
        data_dirs: None,
        state_home: None,
        cache_home: None,
        runtime_dir: None,
    }
}

#[test]
fn join_path_like_pathbuf() {
    for (a, b) in [("/home/u", ".config"), ("/home/u/", "x"), ("", "rel"), ("/a", "/abs"), ("a", ""), (".", "lua_tools")] {
        let expected = PathBuf::from(a).join(b).to_string_lossy().to_string();
        assert_eq!(join_path(a, b), expected, "{a:?} {b:?}");
    }
}

#[test]
fn split_path_list_drops_empty_pieces() {
    assert_eq!(split_path_list("/usr/local/share:/usr/share"), vec!["/usr/local/share", "/usr/share"]);
    assert_eq!(split_path_list("::/a::b:"), vec!["/a", "b"]);
    assert_eq!(split_path_list(""), Vec::<String>::new());
}

#[test]
fn xdg_defaults_under_home() {
    let x = xdg_paths(&env());
    assert_eq!(x.config_home, "/home/u/.config");
    assert_eq!(x.config_dirs, vec!["/etc/xdg"]);
    assert_eq!(x.data_home, "/home/u/.local/share");
    assert_eq!(x.data_dirs, vec!["/usr/local/share", "/usr/share"]);
    assert_eq!(x.state_home, "/home/u/.local/state");
    assert_eq!(x.cache_home, "/home/u/.cache");
    assert_eq!(x.runtime_dir, None);
}

#[test]
fn xdg_variables_take_precedence() {
    let mut e = env();
    e.config_home = Some("/cfg".to_string());
    e.config_dirs = Some("/a:/b".to_string());
    e.runtime_dir = Some("/run/user/1".to_string());
    let x = xdg_paths(&e);
    assert_eq!(x.config_home, "/cfg");
    assert_eq!(x.config_dirs, vec!["/a", "/b"]);
    assert_eq!(x.runtime_dir, Some("/run/user/1".to_string()));
    let (cfg, data, state, cache) = app_dirs(&x);
    assert_eq!(cfg, "/cfg/afkaracode");
    assert_eq!(data, "/home/u/.local/share/afkaracode");
    assert_eq!(state, "/home/u/.local/state/afkaracode");
    assert_eq!(cache, "/home/u/.cache/afkaracode");
}

#[test]
fn home_dir_fallbacks() {
    let mut e = env();
    assert_eq!(home_dir(&e), "/home/u");
    e.home = None;
    e.user_profile = Some("C:\\Users\\u".to_string());
    assert_eq!(home_dir(&e), "C:\\Users\\u");
    e.user_profile = None;
    e.current_dir = Some("/work".to_string());
    assert_eq!(home_dir(&e), "/work");
    e.current_dir = None;
    assert_eq!(home_dir(&e), ".");
}

#[test]
fn plugin_directories() {
    let user = user_plugin_dir("/cfg/afkaracode");
    assert_eq!(user, "/cfg/afkaracode/plugins");
    let c = system_plugin_candidates(&vec!["/etc/xdg".to_string(), "/opt/x".to_string()]);
    assert_eq!(c, vec!["/etc/xdg/afkaracode/plugins", "/opt/x/afkaracode/plugins"]);
    let d = plugin_dirs(user, &c, &vec![false, true]);
    assert_eq!(d, vec!["/cfg/afkaracode/plugins", "/opt/x/afkaracode/plugins"]);
}

#[test]
fn lua_script_names() {
    for name in ["tool.lua", "a.b.lua", ".lua", "..", "x.LUA", "lua", "x.lua.bak", "x.", "..lua"] {
        let expected = std::path::Path::new(name).extension().and_then(|e| e.to_str()) == Some("lua");
        assert_eq!(is_lua_script(name), expected, "{name:?}");
    }
    assert!(is_lua_script("http_example.lua"));
    assert!(!is_lua_script(".lua"));
}

#[test]
fn lua_scripts_keeps_order() {
    let names: Vec<String> = ["b.lua", "notes.txt", "a.lua", ".lua", "c.LUA"].iter().map(|s| s.to_string()).collect();
    assert_eq!(afkaracode::paths::lua_scripts(&names), vec!["b.lua", "a.lua"]);
}
