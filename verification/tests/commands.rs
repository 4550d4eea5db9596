use weecord::command::{
    connect_step, expand_home_dir, path_error_message, resolve_upload_path, run_command, user_set_option, Action,
};

fn print(m: &str) -> Action {
    Action::Print(m.to_string())
}

#[test]
fn empty_command_points_to_help() {
    assert_eq!(run_command(""), vec![print("see /help discord for more information")]);
}

#[test]
fn connect_and_disconnect() {
    assert_eq!(run_command("connect"), vec![Action::Connect]);
    assert_eq!(run_command("disconnect"), vec![Action::Disconnect, print("Disconnected")]);
}

#[test]
fn token_is_stored_without_quotes() {
    assert_eq!(
        run_command("token \"123456789ABCDEF\""),
        vec![
            Action::ReportSetOption { name: "token".to_string(), value: "123456789ABCDEF".to_string() },
            print("Set Discord token"),
        ]
    );
    assert_eq!(
        run_command("token abc"),
        vec![
            Action::ReportSetOption { name: "token".to_string(), value: "abc".to_string() },
            print("Set Discord token"),
        ]
    );
}

#[test]
fn token_keeps_inner_spaces_and_quotes() {
    assert_eq!(
        run_command("token  a\"b "),
        vec![
            Action::ReportSetOption { name: "token".to_string(), value: " a\"b ".to_string() },
            print("Set Discord token"),
        ]
    );
}

#[test]
fn autostart_switches() {
    assert_eq!(
        run_command("autostart"),
        vec![
            Action::SetOption { name: "autostart".to_string(), value: "true".to_string() },
            print("Discord will now load on startup"),
        ]
    );
    assert_eq!(
        run_command("noautostart"),
        vec![
            Action::SetOption { name: "autostart".to_string(), value: "false".to_string() },
            print("Discord will not load on startup"),
        ]
    );
}

#[test]
fn upload_takes_the_rest_of_the_line() {
    assert_eq!(run_command("upload file.txt"), vec![Action::Upload("file.txt".to_string())]);
    assert_eq!(run_command("upload ~/a b"), vec![Action::Upload("~/a b".to_string())]);
}

#[test]
fn unknown_commands() {
    for c in ["token", "upload", "Connect", "connect ", "query khyperia", " disconnect"].iter() {
        assert_eq!(run_command(c), vec![print("Unknown command")], "input {:?}", c);
    }
}

#[test]
fn every_command_is_answered() {
    for c in ["", "x", "token ", "upload ", "autostart", "disconnect"].iter() {
        assert!(!run_command(c).is_empty());
    }
}

#[test]
fn user_set_option_reports() {
    assert_eq!(
        user_set_option("token", "abc"),
        Action::ReportSetOption { name: "token".to_string(), value: "abc".to_string() }
    );
}

#[test]
fn connect_without_token_explains() {
    let expected = vec![
        print("Error: plugins.var.weecord.token unset. Run:"),
        print("/discord token 123456789ABCDEF"),
    ];
    assert_eq!(connect_step(None, false), expected);
    assert_eq!(connect_step(None, true), expected);
}

#[test]
fn connect_opens_one_session_only() {
    assert_eq!(connect_step(Some("t".to_string()), false), vec![Action::StartSession("t".to_string())]);
    assert_eq!(connect_step(Some("t".to_string()), true), vec![]);
}

#[test]
fn home_expansion() {
    assert_eq!(expand_home_dir("~/a.txt", Some("/home/u".to_string())), "/home/u/a.txt");
    assert_eq!(expand_home_dir("~/a.txt", None), "./a.txt");
    assert_eq!(expand_home_dir("/tmp/a.txt", Some("/home/u".to_string())), "/tmp/a.txt");
    assert_eq!(expand_home_dir("~a.txt", Some("/home/u".to_string())), "~a.txt");
    assert_eq!(expand_home_dir("~/", Some("/h".to_string())), "/h/");
}

#[test]
fn upload_path_resolution() {
    assert_eq!(resolve_upload_path("notes.txt"), "notes.txt");
    let p = resolve_upload_path("~/notes.txt");
    assert!(p.ends_with("/notes.txt"));
    assert!(!p.starts_with("~/"));
}

#[test]
fn path_error_text() {
    assert_eq!(path_error_message("No such file"), "Unable to resolve file path: No such file");
}
