use weecord::hooks::{buffer_input, dedup_by_key, handle_timer, parse_nick, query_term, NickChange, TimerStep};
use weecord::plugin::{fatal_error_message, plugin_return_code, really_bad, WEECHAT_RC_ERROR, WEECHAT_RC_OK};

fn nick(all: bool, n: Option<&str>) -> NickChange {
    NickChange { all_guilds: all, nick: n.map(|s| s.to_string()) }
}

#[test]
fn nick_in_current_guild() {
    assert_eq!(parse_nick("/nick foo"), nick(false, Some("foo")));
    assert_eq!(parse_nick("/nick   foo bar  "), nick(false, Some("foo bar")));
}

#[test]
fn nick_reset() {
    assert_eq!(parse_nick("/nick"), nick(false, None));
    assert_eq!(parse_nick("/nick   "), nick(false, None));
}

#[test]
fn nick_in_all_guilds() {
    assert_eq!(parse_nick("/nick -all bar"), nick(true, Some("bar")));
    assert_eq!(parse_nick("/nick -all"), nick(true, None));
    assert_eq!(parse_nick("/nick  -all   x y "), nick(true, Some("x y")));
}

#[test]
fn nick_all_must_be_a_whole_word() {
    assert_eq!(parse_nick("/nick -allx"), nick(false, Some("-allx")));
    assert_eq!(parse_nick("/nick -al"), nick(false, Some("-al")));
}

#[test]
fn nick_sliced_by_bytes() {
    assert_eq!(parse_nick("/nickname"), nick(false, Some("name")));
}

#[test]
fn query_search_text() {
    assert_eq!(query_term("/query  khyperia "), "khyperia");
    assert_eq!(query_term("/query "), "");
    assert_eq!(query_term("/query a b"), "a b");
}

#[test]
fn dedup_keeps_first_of_each_run() {
    assert_eq!(dedup_by_key(&vec![1, 1, 2, 2, 1]), vec![0, 2, 4]);
    assert_eq!(dedup_by_key(&vec![]), Vec::<usize>::new());
    assert_eq!(dedup_by_key(&vec![7]), vec![0]);
    assert_eq!(dedup_by_key(&vec![5, 5, 5]), vec![0]);
    assert_eq!(dedup_by_key(&vec![1, 2, 3]), vec![0, 1, 2]);
}

#[test]
fn dedup_agrees_with_std_and_neighbours_differ() {
    let keys: Vec<u64> = vec![3, 3, 1, 4, 4, 4, 1, 5, 9, 9, 2, 6, 5, 5];
    let kept = dedup_by_key(&keys);
    let mut std_keys = keys.clone();
    std_keys.dedup_by_key(|k| *k);
    let ours: Vec<u64> = kept.iter().map(|&i| keys[i]).collect();
    assert_eq!(ours, std_keys);
    for w in kept.windows(2) {
        assert_ne!(keys[w[0]], keys[w[1]]);
    }
    assert_eq!(kept[0], 0);
}

#[test]
fn channel_of_a_buffer() {
    assert_eq!(buffer_input(Some("123456789012345678")), Some(123456789012345678));
    assert_eq!(buffer_input(Some("")), None);
    assert_eq!(buffer_input(Some("abc")), None);
    assert_eq!(buffer_input(None), None);
}

#[test]
fn timer_drains_until_empty() {
    assert_eq!(handle_timer(true), TimerStep::Acknowledge);
    assert_eq!(handle_timer(false), TimerStep::Finish);
}

#[test]
fn return_codes() {
    assert_eq!(plugin_return_code(true), WEECHAT_RC_OK);
    assert_eq!(plugin_return_code(false), WEECHAT_RC_ERROR);
    assert_eq!(WEECHAT_RC_OK, 0);
    assert_eq!(WEECHAT_RC_ERROR, -1);
}

#[test]
fn error_messages() {
    assert_eq!(really_bad("boom".to_string()), "weecord: Internal error - boom");
    assert_eq!(fatal_error_message(Some("oops")), "weecord: Fatal error (caught) - oops");
    assert_eq!(fatal_error_message(None), "weecord: Fatal error (caught) - unknown error");
}
