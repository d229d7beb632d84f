use colored::Colorize;
use syntect::easy::HighlightLines;
use syntect::highlighting::ThemeSet;
use syntect::parsing::SyntaxSet;
use afkaracode::file_ops::{edit_preview, DiffKind};
use afkaracode::render::render_markdown;
use afkaracode::bash::{bash_args, completed_report, failed_report, filter_output, timeout_report};
use afkaracode::env::{env_vars_from, openai_auth_from_string, Auth};
use afkaracode::lua::{
    arg_kind, arg_spec_from_fields, entry_name, invoke_output, lua_return_text,
    lua_tool_from_fields, LuaReturn,
};
use afkaracode::render::{classify_markdown, MarkdownLine};
use afkaracode::session::{after_failure, extra_instructions, is_exit_command, newest_file, system_prompt, RetryStep};
use afkaracode::tools::{
    create_args, edit_args, path_arg, read_args, read_report, ArgKind, BashExec, CreateFile,
    EditFile, ListDirectoryContents, MakeDirectory, Presence, ReadFile,
};

fn s(x: &str) -> Option<String> {
    Some(x.to_string())
}

#[test]
fn auth_key_value_split_at_first_bar() {
    match openai_auth_from_string("X-Api-Key|abc|def".to_string()) {
        Some(Auth::ApiKey { key, value }) => {
            assert_eq!(key, "X-Api-Key");
            assert_eq!(value, "abc|def");
        }
        other => panic!("unexpected {other:?}"),
    }
    match openai_auth_from_string("|".to_string()) {
        Some(Auth::ApiKey { key, value }) => {
            assert_eq!(key, "");
            assert_eq!(value, "");
        }
        other => panic!("unexpected {other:?}"),
    }
}

#[test]
fn auth_without_bar_is_bearer() {
    match openai_auth_from_string("sk-SECRET-REDACTED".to_string()) {
        Some(Auth::BearerToken(t)) => assert_eq!(t, "sk-SECRET-REDACTED"),
        other => panic!("unexpected {other:?}"),
    }
}

#[test]
fn env_vars_need_endpoint() {
    assert_eq!(env_vars_from(s("k|v"), None).unwrap_err(), "Please provied a v1 endpoint in .env");
    let e = env_vars_from(None, s("http://localhost:1234/v1")).unwrap();
    assert_eq!(e.v1_endpoint, "http://localhost:1234/v1");
    assert!(e.api_key.is_none());
}

#[test]
fn markdown_lines_are_classified() {
    let r = classify_markdown("Intro\n```rust  \nfn main() {}\n```\nDone\r\n");
    assert_eq!(
        r,
        vec![
            MarkdownLine::Text("Intro".to_string()),
            MarkdownLine::FenceOpen("rust".to_string()),
            MarkdownLine::Code("fn main() {}".to_string()),
            MarkdownLine::FenceClose,
            MarkdownLine::Text("Done".to_string()),
        ]
    );
}

#[test]
fn markdown_unclosed_fence_and_empty_language() {
    let r = classify_markdown("```\n```py\nx");
    assert_eq!(
        r,
        vec![
            MarkdownLine::FenceOpen(String::new()),
            MarkdownLine::FenceClose,
            MarkdownLine::Text("x".to_string()),
        ]
    );
    assert_eq!(classify_markdown(""), vec![]);
    assert_eq!(classify_markdown("a\n\nb").len(), 3);
}

#[test]
fn bash_args_defaults() {
    let a = bash_args(s("ls"), s(""), None, s(""), None).unwrap();
    assert_eq!(a.cmd, "ls");
    assert_eq!(a.cwd, None);
    assert_eq!(a.timeout_ms, 60000);
    assert_eq!(a.filter_for, None);
    let a = bash_args(s("ls"), s("/tmp"), s("1500"), s("^a"), s("b$")).unwrap();
    assert_eq!(a.cwd, s("/tmp"));
    assert_eq!(a.timeout_ms, 1500);
    assert_eq!(a.filter_for, s("^a"));
    assert_eq!(a.filter_out, s("b$"));
    assert_eq!(bash_args(s("ls"), None, s("soon"), None, None).unwrap().timeout_ms, 60000);
    assert_eq!(bash_args(None, None, None, None, None).unwrap_err(), "please provide a cmd");
}

#[test]
fn filters_select_lines() {
    let text = "apple\nbanana\navocado\ncherry\n";
    assert_eq!(filter_output(text, &None, &None), "apple\nbanana\navocado\ncherry");
    assert_eq!(filter_output(text, &s("^a"), &None), "apple\navocado");
    assert_eq!(filter_output(text, &s("^a"), &s("cad")), "apple");
    assert_eq!(filter_output(text, &None, &s("an")), "apple\navocado\ncherry");
    assert_eq!(filter_output(text, &s("a"), &s("a")), "");
    assert_eq!(filter_output(text, &s("("), &None), "apple\nbanana\navocado\ncherry");
    assert_eq!(filter_output("", &None, &None), "");
}

#[test]
fn bash_reports() {
    assert_eq!(
        completed_report(Some(0), "hi\n", "warn: \"x\"\n", &None, &None),
        "{\"exit_code\":0,\"stderr\":\"warn: \\\"x\\\"\",\"stdout\":\"hi\"}"
    );
    assert_eq!(
        completed_report(None, "a\nb\n", "", &s("b"), &None),
        "{\"exit_code\":-1,\"stderr\":\"\",\"stdout\":\"b\"}"
    );
    assert_eq!(timeout_report(60000), "{\"error\":\"timeout\",\"timeout_ms\":60000}");
    assert_eq!(failed_report(), "failed to execute command");
}

#[test]
fn tool_arguments_are_checked_in_order() {
    assert_eq!(edit_args(None, None, None).unwrap_err(), "please provide a path");
    assert_eq!(edit_args(s("p"), None, None).unwrap_err(), "please provide the old snippet that should be replaced.");
    assert_eq!(edit_args(s("p"), s("o"), None).unwrap_err(), "please provide a new snippet to be inserted in the file");
    assert_eq!(edit_args(s("p"), s("o"), s("n")).unwrap(), ("p".to_string(), "o".to_string(), "n".to_string()));
    assert_eq!(create_args(None, s("c")).unwrap_err(), "please provide a path");
    assert_eq!(create_args(s("p"), None).unwrap_err(), "please provide content");
    assert_eq!(path_arg(None).unwrap_err(), "please provide a path");
    assert_eq!(path_arg(s("d")).unwrap(), "d");
    let r = read_args(s("README.md"), Some(0), Some(200)).unwrap();
    assert_eq!((r.path.as_str(), r.offset, r.length), ("README.md", Some(0), Some(200)));
    assert_eq!(read_args(None, None, None).unwrap_err(), "please provide a path");
}

#[test]
fn read_report_text() {
    assert_eq!(
        read_report("README.md", Some(0), Some(200), "héllo"),
        "read file path: README.md (offset=Some(0), length=Some(200), bytes_read=6)\nhéllo"
    );
    assert_eq!(
        read_report("a", None, None, ""),
        "read file path: a (offset=None, length=None, bytes_read=0)\n"
    );
}

#[test]
fn builtin_tool_descriptors() {
    assert_eq!(EditFile.get_name(), "edit_file");
    assert_eq!(ReadFile.get_name(), "read_file");
    assert_eq!(CreateFile.get_name(), "create_file");
    assert_eq!(ListDirectoryContents.get_name(), "list_dir_contents");
    assert_eq!(MakeDirectory.get_name(), "make_dir");
    assert_eq!(BashExec.get_name(), "bash_exec");
    let args = ReadFile.get_args();
    assert_eq!(args.len(), 3);
    assert_eq!(args[1].name, "offset");
    assert_eq!(args[1].kind, ArgKind::Number);
    let args = BashExec.get_args();
    assert_eq!(args[0].presence, Presence::Required);
    assert_eq!(args[4].presence, Presence::Optional);
    assert!(EditFile.get_description().contains("str replace"));
    assert_eq!(CreateFile.get_args().len(), 2);
    assert_eq!(ListDirectoryContents.get_args().len(), 1);
    assert_eq!(MakeDirectory.get_args()[0].name, "path");
}

#[test]
fn lua_arg_defaults_and_kinds() {
    let a = arg_spec_from_fields(None, None, None, None);
    assert_eq!((a.name.as_str(), a.desc.as_str(), a.ty.as_str(), a.required), ("arg", "", "string", true));
    let a = arg_spec_from_fields(s("url"), s("URL to fetch"), s("Number"), Some(false));
    assert_eq!((a.name.as_str(), a.ty.as_str(), a.required), ("url", "Number", false));
    let long = "x".repeat(100);
    assert!(read_report("f", None, None, &long).ends_with(&long));
    assert_eq!(arg_kind("number"), ArgKind::Number);
    assert_eq!(arg_kind("NUMBER"), ArgKind::Text);
    assert_eq!(arg_kind("Number"), ArgKind::Text);
    assert_eq!(arg_kind("BOOL"), ArgKind::Bool);
    assert_eq!(arg_kind("bool"), ArgKind::Bool);
    assert_eq!(arg_kind("Boolean"), ArgKind::Bool);
    assert_eq!(arg_kind("string"), ArgKind::Text);
    assert_eq!(arg_kind("table"), ArgKind::Text);
}

#[test]
fn lua_tool_from_table_fields() {
    assert_eq!(entry_name(None), "run");
    assert_eq!(entry_name(s("main")), "main");
    let args = vec![arg_spec_from_fields(s("url"), s("URL"), s("string"), Some(true))];
    let t = lua_tool_from_fields(
        Ok("http_example".to_string()),
        None,
        "run".to_string(),
        Ok(()),
        Ok(args),
        "lua_tools/http_example.lua".to_string(),
    )
    .unwrap();
    assert_eq!(t.get_name(), "http_example");
    assert_eq!(t.get_description(), "lua tool");
    let d = t.build_arg_descriptors();
    assert_eq!(d.len(), 1);
    assert_eq!(d[0].presence, Presence::Required);
    assert_eq!(d[0].kind, ArgKind::Text);
    let e = lua_tool_from_fields(Err("nil".to_string()), None, "run".to_string(), Err("x".to_string()), Ok(vec![]), String::new());
    assert_eq!(e.unwrap_err(), "missing name: nil");
    let e = lua_tool_from_fields(Ok("t".to_string()), s("d"), "go".to_string(), Err("nil".to_string()), Ok(vec![]), String::new());
    assert_eq!(e.unwrap_err(), "missing entry function 'go': nil");
    let e = lua_tool_from_fields(Ok("t".to_string()), s("d"), "go".to_string(), Ok(()), Err("bad args".to_string()), String::new());
    assert_eq!(e.unwrap_err(), "bad args");
}

#[test]
fn lua_outputs() {
    assert_eq!(lua_return_text(LuaReturn::Text("hi".to_string())), "hi");
    assert_eq!(lua_return_text(LuaReturn::Other(s("{\"a\":1}"))), "{\"a\":1}");
    assert_eq!(lua_return_text(LuaReturn::Other(None)), "null");
    assert_eq!(invoke_output(Ok("ok".to_string())), "ok");
    assert_eq!(invoke_output(Err("boom".to_string())), "lua tool error: boom");
}

#[test]
fn exit_commands() {
    assert!(is_exit_command("exit\n"));
    assert!(is_exit_command("  :q "));
    assert!(is_exit_command(":x"));
    assert!(!is_exit_command("exit now"));
    assert!(!is_exit_command(":wq"));
}

#[test]
fn retry_schedule() {
    assert_eq!(after_failure(1, 5), RetryStep::RetryAfter(2));
    assert_eq!(after_failure(2, 5), RetryStep::RetryAfter(4));
    assert_eq!(after_failure(4, 5), RetryStep::RetryAfter(16));
    assert_eq!(after_failure(5, 5), RetryStep::GiveUp);
    assert_eq!(after_failure(0, 64), RetryStep::RetryAfter(1));
    assert_eq!(after_failure(63, 64), RetryStep::RetryAfter(1u64 << 63));
}

#[test]
fn newest_instruction_file() {
    assert_eq!(newest_file(&vec![None, None]), None);
    assert_eq!(newest_file(&vec![Some(5), Some(7)]), Some(1));
    assert_eq!(newest_file(&vec![Some(7), Some(7)]), Some(0));
    assert_eq!(newest_file(&vec![None, Some(-3)]), Some(1));
    assert_eq!(newest_file(&vec![Some(9), None]), Some(0));
}

#[test]
fn prompt_text() {
    assert_eq!(extra_instructions("AGENTS.md", "be brief"), "\n\nAdditional workspace instructions (from AGENTS.md):\n\nbe brief");
    let p = system_prompt(None);
    assert!(p.starts_with("You are a careful, fast coding agent."));
    assert_eq!(system_prompt(Some("X".to_string())), p.clone() + "X");
}

#[test]
fn instruction_file_candidates() {
    assert_eq!(afkaracode::session::instruction_files(), vec!["AGENTS.md"]);
}

#[test]
fn edit_preview_lines() {
    let p = edit_preview("a\nb\n", "a\nc\n");
    let got: Vec<(DiffKind, String)> = p.into_iter().map(|d| (d.kind, d.text)).collect();
    assert_eq!(
        got,
        vec![
            (DiffKind::Kept, "a\n".to_string()),
            (DiffKind::Removed, "b\n".to_string()),
            (DiffKind::Added, "c\n".to_string()),
        ]
    );
    let p = edit_preview("x", "y");
    assert_eq!(p[0].text, "x\n");
    assert_eq!(p[1].text, "y\n");
}

#[test]
fn render_plain_reply() {
    assert_eq!(render_markdown("Hello\nworld", false), "Hello\nworld\n");
    let r = render_markdown("Intro\n```rust\nfn main() {}\n```\nDone", false);
    assert!(r.starts_with("Intro\n```\n"));
    assert!(r.ends_with("Done\n"));
    assert!(r.contains("fn"));
    assert!(r.contains("\u{1b}[38;2;"));
    let colored = render_markdown("Hi", true);
    assert!(colored == "Hi\n" || colored.contains("Hi"));
}

#[test]
fn render_unclosed_block_is_highlighted() {
    let r = render_markdown("```\nplain line", false);
    assert!(r.starts_with("```\n"));
    assert!(r.contains("plain line"));
    assert!(r.ends_with("\n") || r.ends_with("m"));
}

fn reference_render(input: &str) -> String {
    let ps = SyntaxSet::load_defaults_newlines();
    let ts = ThemeSet::load_defaults();
    let theme = &ts.themes["base16-ocean.dark"];
    let mut out = String::new();
    let mut in_code = false;
    let mut highlighter: Option<HighlightLines> = None;
    for line in input.lines() {
        if let Some(rest) = line.strip_prefix("```") {
            if in_code {
                in_code = false;
                highlighter = None;
            } else {
                let l = rest.trim();
                let syntax = if l.is_empty() {
                    ps.find_syntax_plain_text()
                } else {
                    ps.find_syntax_by_token(l)
                        .or_else(|| ps.find_syntax_by_name(l))
                        .or_else(|| ps.find_syntax_by_extension(l))
                        .unwrap_or_else(|| ps.find_syntax_plain_text())
                };
                highlighter = Some(HighlightLines::new(syntax, theme));
                in_code = true;
                out.push_str(&"```".truecolor(120, 120, 120).to_string());
                out.push('\n');
            }
            continue;
        }
        if in_code {
            let h = highlighter.as_mut().unwrap();
            let l = format!("{line}\n");
            let ranges = h.highlight_line(&l, &ps).unwrap();
            out.push_str(&syntect::util::as_24_bit_terminal_escaped(&ranges[..], false));
        } else {
            out.push_str(&line.truecolor(220, 220, 220).to_string());
            out.push('\n');
        }
    }
    out
}

#[test]
fn render_matches_reference_without_colour() {
    colored::control::set_override(false);
    let reply = "Here:\n```rust\nfn main() {\n    let x = \"s\";\n}\n```\nand\n```py\nprint(1)\n```\n```\nplain\n``` \nend\n```toml\na = 1";
    assert_eq!(render_markdown(reply, false), reference_render(reply));
}

#[test]
fn render_colour_wraps_text() {
    colored::control::set_override(true);
    let r = render_markdown("Hi", true);
    assert!(r.starts_with("\u{1b}["));
    assert!(r.contains("mHi\u{1b}[0m"));
    assert!(r.ends_with("\u{1b}[0m\n"));
}
