use rustchat::handle_input;
use rustchat::decode_escapes;
use rustchat::App;
use rustchat::AppEvent;
use rustchat::Effect;
use rustchat::Key;
use rustchat::NetEvent;
use rustchat::Popup;

fn fresh() -> App {
    App::startup("me".to_string(), "Real Name".to_string(), 80, 24)
}

fn connected(app: &mut App, name: &str) {
    app.register_connected(name.to_string(), format!("{}:6667", name), "me".to_string());
}

fn channel<'a>(app: &'a App, server: &str, chan: &str) -> &'a rustchat::ChannelData {
    let srv = &app
        .server_list
        .iter()
        .find(|(k, _)| k == server)
        .expect("server missing")
        .1;
    &srv.channels
        .iter()
        .find(|(k, _)| k == chan)
        .expect("channel missing")
        .1
}

fn has_channel(app: &App, server: &str, chan: &str) -> bool {
    app.server_list
        .iter()
        .find(|(k, _)| k == server)
        .map(|(_, s)| s.channels.iter().any(|(k, _)| k == chan))
        .unwrap_or(false)
}

fn line_event(app: &mut App, server: &str, line: &str) -> Vec<Effect> {
    app.handle_net_msg(server.to_string(), NetEvent::Line(line.to_string()))
}

fn send_prompt(app: &mut App, line: &str) -> Vec<Effect> {
    app.prompt = line.to_string();
    handle_input(app, AppEvent::InputSend)
}

#[test]
fn startup_state() {
    let app = fresh();
    assert_eq!(app.active_server, "System");
    assert_eq!(app.active_channel, "Status");
    assert_eq!(app.active_nick, "me");
    assert_eq!(channel(&app, "System", "Status").chat_list.len(), 6);
}

#[test]
fn history_retention_ceiling() {
    let mut app = fresh();
    connected(&mut app, "irc.example");
    for i in 0..1002u32 {
        app.chat_bounds(
            format!("m{}", i),
            "irc.example".to_string(),
            "#big".to_string(),
            "bob".to_string(),
        );
        assert!(channel(&app, "irc.example", "#big").chat_list.len() <= 1001);
    }
    let ch = channel(&app, "irc.example", "#big");
    // 1001 entries, then one eviction of the oldest 500 before the last push
    assert_eq!(ch.chat_list.len(), 502);
    assert_eq!(ch.chat_list[0].1, "m500");
    assert_eq!(ch.chat_list[501].1, "m1001");
}

#[test]
fn unseen_flag_follows_visibility() {
    let mut app = fresh();
    connected(&mut app, "irc.example");
    // the active target after connecting is irc.example / Status
    app.chat_bounds(
        "hello".to_string(),
        "irc.example".to_string(),
        "Status".to_string(),
        "bob".to_string(),
    );
    assert!(!channel(&app, "irc.example", "Status").notification);
    // a channel that is not on screen gets flagged
    app.chat_bounds(
        "psst".to_string(),
        "irc.example".to_string(),
        "#other".to_string(),
        "bob".to_string(),
    );
    app.chat_bounds(
        "again".to_string(),
        "irc.example".to_string(),
        "#other".to_string(),
        "bob".to_string(),
    );
    assert!(channel(&app, "irc.example", "#other").notification);
}

#[test]
fn ping_answers_with_one_pong() {
    let mut app = fresh();
    connected(&mut app, "irc.example");
    let fx = line_event(&mut app, "irc.example", "PING :abc");
    assert_eq!(fx.len(), 1);
    match &fx[0] {
        Effect::Send { server, line } => {
            assert_eq!(server, "irc.example");
            assert_eq!(line, "PONG :abc");
        }
        other => panic!("unexpected effect {:?}", other),
    }
}

#[test]
fn names_reply_merge_is_idempotent() {
    let mut app = fresh();
    connected(&mut app, "irc.example");
    line_event(&mut app, "irc.example", ":me!u@h JOIN #test");
    line_event(&mut app, "irc.example", ":srv 353 me = #test :alice bob");
    line_event(&mut app, "irc.example", ":srv 353 me = #test :alice bob");
    let ch = channel(&app, "irc.example", "#test");
    assert_eq!(ch.user_list, vec!["alice".to_string(), "bob".to_string()]);
}

#[test]
fn own_join_opens_and_focuses_channel() {
    let mut app = fresh();
    connected(&mut app, "irc.example");
    line_event(&mut app, "irc.example", ":me!u@h JOIN #fresh");
    assert!(has_channel(&app, "irc.example", "#fresh"));
    assert_eq!(app.active_server, "irc.example");
    assert_eq!(app.active_channel, "#fresh");
}

#[test]
fn other_join_only_updates_membership() {
    let mut app = fresh();
    connected(&mut app, "irc.example");
    line_event(&mut app, "irc.example", ":me!u@h JOIN #fresh");
    let before = app.active_channel.clone();
    line_event(&mut app, "irc.example", ":carol!u@h JOIN #fresh");
    assert_eq!(app.active_channel, before);
    let ch = channel(&app, "irc.example", "#fresh");
    assert!(ch.user_list.contains(&"carol".to_string()));
    // joining twice does not duplicate the entry
    line_event(&mut app, "irc.example", ":carol!u@h JOIN #fresh");
    let ch = channel(&app, "irc.example", "#fresh");
    assert_eq!(
        ch.user_list.iter().filter(|u| u.as_str() == "carol").count(),
        1
    );
}

#[test]
fn quit_removes_user_everywhere() {
    let mut app = fresh();
    connected(&mut app, "irc.example");
    line_event(&mut app, "irc.example", ":me!u@h JOIN #a");
    line_event(&mut app, "irc.example", ":me!u@h JOIN #b");
    line_event(&mut app, "irc.example", ":srv 353 me = #a :@carol dave");
    line_event(&mut app, "irc.example", ":srv 353 me = #b :+carol");
    line_event(&mut app, "irc.example", ":carol!u@h QUIT :bye");
    assert_eq!(channel(&app, "irc.example", "#a").user_list, vec!["dave".to_string()]);
    assert!(channel(&app, "irc.example", "#b").user_list.is_empty());
}

#[test]
fn part_removes_user_from_one_channel() {
    let mut app = fresh();
    connected(&mut app, "irc.example");
    line_event(&mut app, "irc.example", ":me!u@h JOIN #a");
    line_event(&mut app, "irc.example", ":srv 353 me = #a :carol dave");
    line_event(&mut app, "irc.example", ":carol!u@h PART #a :gone");
    assert_eq!(channel(&app, "irc.example", "#a").user_list, vec!["dave".to_string()]);
}

#[test]
fn nick_change_renames_membership_and_self() {
    let mut app = fresh();
    connected(&mut app, "irc.example");
    line_event(&mut app, "irc.example", ":me!u@h JOIN #a");
    line_event(&mut app, "irc.example", ":srv 353 me = #a :carol");
    line_event(&mut app, "irc.example", ":carol!u@h NICK :caroline");
    assert_eq!(channel(&app, "irc.example", "#a").user_list, vec!["caroline".to_string()]);
    line_event(&mut app, "irc.example", ":me!u@h NICK :metoo");
    assert_eq!(app.active_nick, "metoo");
}

#[test]
fn nick_collision_appends_underscore() {
    let mut app = fresh();
    connected(&mut app, "irc.example");
    let fx = line_event(&mut app, "irc.example", ":srv 433 * me :Nickname is already in use");
    assert_eq!(app.active_nick, "me_");
    assert!(fx.iter().any(|f| match f {
        Effect::Send { server, line } => server == "irc.example" && line == "NICK me_",
        _ => false,
    }));
}

#[test]
fn privmsg_lands_in_channel_history() {
    let mut app = fresh();
    connected(&mut app, "irc.example");
    line_event(&mut app, "irc.example", ":me!u@h JOIN #a");
    line_event(&mut app, "irc.example", ":carol!u@h PRIVMSG #a :hello there");
    let ch = channel(&app, "irc.example", "#a");
    let last = ch.chat_list.last().unwrap();
    assert_eq!(last.0, "carol");
    assert_eq!(last.1, "hello there");
}

#[test]
fn swap_zero_and_out_of_range() {
    let mut app = fresh();
    connected(&mut app, "irc.example");
    line_event(&mut app, "irc.example", ":me!u@h JOIN #a");
    // enumeration: servers ascending: System then irc.example;
    // "System"/"Status" sorts after "#a"/"Status" of irc.example? servers:
    // "System" < "irc.example" (upper case before lower case), so index 0
    // is System/Status.
    let fx = send_prompt(&mut app, "/swap 0");
    assert!(fx.is_empty());
    assert_eq!(app.active_server, "System");
    assert_eq!(app.active_channel, "Status");
    let before_server = app.active_server.clone();
    let before_channel = app.active_channel.clone();
    send_prompt(&mut app, "/swap 999");
    assert_eq!(app.active_server, before_server);
    assert_eq!(app.active_channel, before_channel);
}

#[test]
fn split_selects_both_sides() {
    let mut app = fresh();
    connected(&mut app, "irc.example");
    line_event(&mut app, "irc.example", ":me!u@h JOIN #a");
    // index 0: System/Status, 1: irc.example/#a, 2: irc.example/Status
    send_prompt(&mut app, "/split 0-1");
    assert!(app.split.0);
    assert_eq!(app.split.1, "System");
    assert_eq!(app.split.2, "Status");
    assert_eq!(app.split.3, "irc.example");
    assert_eq!(app.split.4, "#a");
    assert_eq!(app.active_server, "System");
    // out-of-range cancels the whole operation
    send_prompt(&mut app, "/swap 0");
    send_prompt(&mut app, "/split 0-99");
    assert!(!app.split.0);
}

#[test]
fn disconnect_unknown_server_is_noop() {
    let mut app = fresh();
    connected(&mut app, "irc.example");
    let servers_before: Vec<String> =
        app.server_list.iter().map(|(k, _)| k.clone()).collect();
    let active_before = app.active_server.clone();
    let fx = send_prompt(&mut app, "/disconnect noserver");
    assert!(fx.is_empty());
    let servers_after: Vec<String> =
        app.server_list.iter().map(|(k, _)| k.clone()).collect();
    assert_eq!(servers_before, servers_after);
    assert_eq!(app.active_server, active_before);
}

#[test]
fn disconnect_known_server_falls_back() {
    let mut app = fresh();
    connected(&mut app, "irc.example");
    let fx = send_prompt(&mut app, "/disconnect irc.example");
    assert_eq!(fx.len(), 1);
    match &fx[0] {
        Effect::Disconnect { server } => assert_eq!(server, "irc.example"),
        other => panic!("unexpected effect {:?}", other),
    }
    assert_eq!(app.active_server, "System");
    assert_eq!(app.active_channel, "Status");
    assert_eq!(app.server_list.len(), 1);
}

#[test]
fn escape_round_trip_before_transmission() {
    assert_eq!(decode_escapes("\\u{48}\\u{69}"), "Hi");
    assert_eq!(decode_escapes("say \\u{48}\\u{69}!"), "say Hi!");
    // invalid and unterminated escapes stay as written
    assert_eq!(decode_escapes("\\u{zz}"), "\\u{zz}");
    assert_eq!(decode_escapes("\\u{48"), "\\u{48");
    assert_eq!(decode_escapes("\\u{}"), "\\u{}");
    assert_eq!(decode_escapes("\\u{110000}"), "\\u{110000}");
}

#[test]
fn typed_message_is_decoded_and_echoed() {
    let mut app = fresh();
    connected(&mut app, "irc.example");
    line_event(&mut app, "irc.example", ":me!u@h JOIN #a");
    let fx = send_prompt(&mut app, "\\u{48}\\u{69}");
    assert_eq!(fx.len(), 1);
    match &fx[0] {
        Effect::Send { server, line } => {
            assert_eq!(server, "irc.example");
            assert_eq!(line, "PRIVMSG #a :Hi");
        }
        other => panic!("unexpected effect {:?}", other),
    }
    let last = channel(&app, "irc.example", "#a").chat_list.last().unwrap().clone();
    assert_eq!(last.0, "me");
    assert_eq!(last.1, "Hi");
}

#[test]
fn chat_on_system_server_reports_error() {
    let mut app = fresh();
    let fx = send_prompt(&mut app, "hello?");
    assert!(fx.is_empty());
    let last = channel(&app, "System", "Status").chat_list.last().unwrap().clone();
    assert_eq!(last.0, "Error");
    assert!(last.1.contains("not connected"));
}

#[test]
fn connect_command_grammar() {
    let mut app = fresh();
    let fx = send_prompt(&mut app, "/connect irc.example.net:7000");
    assert_eq!(fx.len(), 1);
    match &fx[0] {
        Effect::Connect { server, addr } => {
            assert_eq!(server, "irc.example.net");
            assert_eq!(addr, "irc.example.net:7000");
        }
        other => panic!("unexpected effect {:?}", other),
    }
    let fx = send_prompt(&mut app, "/connect irc.example.net");
    match &fx[0] {
        Effect::Connect { addr, .. } => assert_eq!(addr, "irc.example.net:6667"),
        other => panic!("unexpected effect {:?}", other),
    }
    // a malformed address is handed on empty, so the connect attempt fails
    let fx = send_prompt(&mut app, "/connect bad host");
    match &fx[0] {
        Effect::Connect { server, addr } => {
            assert_eq!(server, "");
            assert_eq!(addr, "");
        }
        other => panic!("unexpected effect {:?}", other),
    }
}

#[test]
fn quit_command_shuts_down() {
    let mut app = fresh();
    let fx = send_prompt(&mut app, "/quit");
    assert!(app.exit);
    assert!(matches!(fx.as_slice(), [Effect::DisconnectAll]));
}

#[test]
fn part_of_unjoined_channel_reports_error() {
    let mut app = fresh();
    connected(&mut app, "irc.example");
    send_prompt(&mut app, "/part #nope");
    let last = channel(&app, "irc.example", "Status").chat_list.last().unwrap().clone();
    assert_eq!(last.0, "Error");
    assert_eq!(last.1, "Channel Not Joined");
}

#[test]
fn raw_slash_command_is_forwarded() {
    let mut app = fresh();
    connected(&mut app, "irc.example");
    let fx = send_prompt(&mut app, "/whois carol");
    assert!(matches!(&fx[..], [Effect::Send { server, line }]
        if server == "irc.example" && line == "whois carol"));
}

#[test]
fn malformed_lines_do_not_panic() {
    let mut app = fresh();
    connected(&mut app, "irc.example");
    for line in [
        "",
        ":",
        ": ",
        "PING",
        ":srv 332",
        ":srv 331 me",
        ":srv 353",
        "JOIN",
        ":x!y JOIN",
        ":srv PRIVMSG",
        ":carol PRIVMSG #a",
        ":srv NICK",
        "\u{1F600} \u{1F600} \u{1F600}",
    ] {
        line_event(&mut app, "irc.example", line);
    }
    // commands with missing arguments degrade quietly as well
    for cmd in ["/part", "/nick", "/swap", "/swap x", "/split", "/split -", "/msg"] {
        send_prompt(&mut app, cmd);
    }
}

#[test]
fn transport_error_lands_in_active_channel() {
    let mut app = fresh();
    connected(&mut app, "irc.example");
    let fx = app.handle_net_msg(
        "irc.example".to_string(),
        NetEvent::Error("connection reset".to_string()),
    );
    assert!(fx.is_empty());
    let last = channel(&app, "irc.example", "Status").chat_list.last().unwrap().clone();
    assert_eq!(last.0, "Error");
    assert_eq!(last.1, "connection reset");
}

#[test]
fn scroll_advances_by_wrapped_lines() {
    let mut app = fresh();
    app.w = 26;  // usable width 10 columns
    connected(&mut app, "irc.example");
    app.chat_bounds(
        "first".to_string(),
        "irc.example".to_string(),
        "#a".to_string(),
        "bob".to_string(),
    );
    // a reader scrolled forward advances by the display height of new text
    {
        let srv = &mut app
            .server_list
            .iter_mut()
            .find(|(k, _)| k == "irc.example")
            .unwrap()
            .1;
        let ch = &mut srv.channels.iter_mut().find(|(k, _)| k == "#a").unwrap().1;
        ch.chat_pos = 1;
    }
    app.chat_bounds(
        "aaaa bbbb cccc".to_string(),
        "irc.example".to_string(),
        "#a".to_string(),
        "bob".to_string(),
    );
    // "aaaa bbbb cccc" wraps to two 10-column lines
    assert_eq!(channel(&app, "irc.example", "#a").chat_pos, 3);
}

#[test]
fn popup_keys_toggle() {
    let mut app = fresh();
    handle_input(&mut app, AppEvent::Popup(Key::F(1)));
    assert_eq!(app.popup, Popup::Help);
    handle_input(&mut app, AppEvent::Popup(Key::F(1)));
    assert_eq!(app.popup, Popup::Closed);
    handle_input(&mut app, AppEvent::InputEscape);
    assert_eq!(app.popup, Popup::Closed);
}

#[test]
fn prompt_history_navigation() {
    let mut app = fresh();
    connected(&mut app, "irc.example");
    send_prompt(&mut app, "/swap 0");
    send_prompt(&mut app, "/swap 1");
    assert_eq!(app.prompt, "");
    handle_input(&mut app, AppEvent::PromptHistory(Key::Up));
    assert_eq!(app.prompt, "/swap 1");
    handle_input(&mut app, AppEvent::PromptHistory(Key::Up));
    assert_eq!(app.prompt, "/swap 0");
    handle_input(&mut app, AppEvent::PromptHistory(Key::Down));
    assert_eq!(app.prompt, "/swap 1");
}

#[test]
fn tab_swaps_split_sides() {
    let mut app = fresh();
    connected(&mut app, "irc.example");
    line_event(&mut app, "irc.example", ":me!u@h JOIN #a");
    send_prompt(&mut app, "/split 0-1");
    assert_eq!(app.active_server, "System");
    handle_input(&mut app, AppEvent::SplitSwap);
    assert_eq!(app.active_server, "irc.example");
    assert_eq!(app.active_channel, "#a");
    handle_input(&mut app, AppEvent::SplitSwap);
    assert_eq!(app.active_server, "System");
}

#[test]
fn local_nick_on_system_server() {
    let mut app = fresh();
    send_prompt(&mut app, "/nick newme");
    assert_eq!(app.active_nick, "newme");
    let last = channel(&app, "System", "Status").chat_list.last().unwrap().clone();
    assert_eq!(last.1, "You're now known as newme");
}

#[test]
fn topic_reply_lands_in_channel() {
    let mut app = fresh();
    connected(&mut app, "irc.example");
    line_event(&mut app, "irc.example", ":me!u@h JOIN #a");
    line_event(&mut app, "irc.example", ":srv 332 me #a :the topic");
    let ch = channel(&app, "irc.example", "#a");
    let last = ch.chat_list.last().unwrap();
    assert_eq!(last.1, "the topic");
}

#[test]
fn list_service_notice_fills_list_buffer() {
    let mut app = fresh();
    connected(&mut app, "irc.example");
    line_event(&mut app, "irc.example", ":ALIS!svc@host NOTICE me :#chan 5 :a topic");
    assert_eq!(app.popup, Popup::List);
    assert_eq!(app.list_response, vec!["#chan 5 :a topic".to_string()]);
    // known boilerplate lines are suppressed
    line_event(
        &mut app,
        "irc.example",
        ":ALIS!svc@host NOTICE me :#x Returning maximum of 60 channel names",
    );
    assert_eq!(app.list_response.len(), 1);
}

#[test]
fn plain_notice_lands_in_status() {
    let mut app = fresh();
    connected(&mut app, "irc.example");
    let before = channel(&app, "irc.example", "Status").chat_list.len();
    line_event(&mut app, "irc.example", ":srv NOTICE me :look here");
    let ch = channel(&app, "irc.example", "Status");
    assert_eq!(ch.chat_list.len(), before + 1);
}

#[test]
fn list_reply_fills_list_buffer() {
    let mut app = fresh();
    connected(&mut app, "irc.example");
    line_event(&mut app, "irc.example", ":srv 322 me #rust 42 :all about rust");
    assert_eq!(app.popup, Popup::List);
    assert_eq!(app.list_response, vec!["#rust 42 :all about rust".to_string()]);
}

#[test]
fn page_down_moves_towards_newest() {
    let mut app = fresh();
    connected(&mut app, "irc.example");
    {
        let srv = &mut app
            .server_list
            .iter_mut()
            .find(|(k, _)| k == "irc.example")
            .unwrap()
            .1;
        let ch = &mut srv.channels.iter_mut().find(|(k, _)| k == "Status").unwrap().1;
        ch.chat_pos = 2;
    }
    handle_input(&mut app, AppEvent::ListHistory(Key::PageDown));
    assert_eq!(channel(&app, "irc.example", "Status").chat_pos, 1);
    handle_input(&mut app, AppEvent::ListHistory(Key::PageDown));
    handle_input(&mut app, AppEvent::ListHistory(Key::PageDown));
    assert_eq!(channel(&app, "irc.example", "Status").chat_pos, 0);
}

#[test]
fn reconnect_keeps_registered_nickname() {
    let mut app = fresh();
    connected(&mut app, "irc.example");
    line_event(&mut app, "irc.example", ":srv 433 * me :Nickname is already in use");
    assert_eq!(app.active_nick, "me_");
    // registering the same server again keeps its session nickname
    app.register_connected(
        "irc.example".to_string(),
        "irc.example:6667".to_string(),
        "other".to_string(),
    );
    let srv = &app
        .server_list
        .iter()
        .find(|(k, _)| k == "irc.example")
        .unwrap()
        .1;
    assert_eq!(srv.nick, "me_");
    assert_eq!(app.active_nick, "other");
}

#[test]
fn nick_collision_on_inactive_server_keeps_cached_nick() {
    let mut app = fresh();
    connected(&mut app, "irc.one");
    connected(&mut app, "irc.two");
    // the active target is irc.two; a collision arrives from irc.one
    line_event(&mut app, "irc.one", ":srv 433 * me :Nickname is already in use");
    assert_eq!(app.active_nick, "me");
    let srv = &app.server_list.iter().find(|(k, _)| k == "irc.one").unwrap().1;
    assert_eq!(srv.nick, "me_");
}

#[test]
fn system_server_cannot_be_disconnected() {
    let mut app = fresh();
    let fx = send_prompt(&mut app, "/disconnect System");
    assert!(fx.is_empty());
    assert_eq!(app.server_list.len(), 1);
    assert_eq!(app.server_list[0].0, "System");
}

#[test]
fn system_status_cannot_be_parted() {
    let mut app = fresh();
    send_prompt(&mut app, "/part Status");
    assert!(has_channel(&app, "System", "Status"));
    assert_eq!(app.active_server, "System");
    assert_eq!(app.active_channel, "Status");
}
