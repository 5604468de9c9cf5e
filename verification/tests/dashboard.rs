use all_llama_proxy::logbuffer::{LogBuffer, LogBufferWriter};
use all_llama_proxy::protocol::{
    consumed_len, decode, encode, prefix_len, BackendSnapshot, DashboardCmd, DashboardSnapshot,
    FrameReader,
};
use all_llama_proxy::strmap::StrMap;
use all_llama_proxy::tui::{
    blocked_items, level_paint, level_text, toggle_vip, BackendLine, CurrentPanel, Key, Paint,
    TuiDashboard, UserMark,
};

#[test]
fn messages_are_framed_and_read_back() {
    let msg = encode(&[7, 8, 9]);
    assert_eq!(msg, vec![0, 0, 0, 3, 7, 8, 9]);
    assert_eq!(decode(&msg), Some(vec![7, 8, 9]));
    assert_eq!(consumed_len(&msg), Some(7));
    assert_eq!(prefix_len(&[1, 2, 3, 4]), Some(0x01020304));
    assert_eq!(prefix_len(&[1, 2, 3]), None);
    for n in 0..msg.len() {
        assert_eq!(decode(&msg[..n]), None);
        assert_eq!(consumed_len(&msg[..n]), None);
    }
    assert_eq!(decode(&[0, 0, 0, 0]), Some(vec![]));
    let long = encode(&vec![1; 300]);
    assert_eq!(long[..4], [0, 0, 1, 44]);
}

#[test]
fn reader_takes_messages_from_pieces() {
    let mut stream = encode(b"one");
    stream.extend(encode(b""));
    stream.extend(encode(b"three"));
    let mut reader = FrameReader::new();
    let mut got = Vec::new();
    for b in &stream {
        reader.feed(&[*b]);
        while let Some(body) = reader.next_body() {
            got.push(body);
        }
    }
    assert_eq!(got, vec![b"one".to_vec(), b"".to_vec(), b"three".to_vec()]);
    assert!(reader.buf.is_empty());
    reader.feed(&[1, 2]);
    reader.discard();
    assert!(reader.buf.is_empty());
}

#[test]
fn buffer_keeps_the_last_lines() {
    let mut b = LogBuffer::new(2);
    b.append_at("INFO", "a".to_string(), 1);
    b.append_at("WARN", "b".to_string(), 2);
    b.append_at("ERROR", "c".to_string(), 3);
    assert_eq!(
        b.get_last_n(5),
        vec![("WARN".to_string(), 2, "b".to_string()), ("ERROR".to_string(), 3, "c".to_string())]
    );
    assert_eq!(b.get_last_n(1), vec![("ERROR".to_string(), 3, "c".to_string())]);
    assert!(b.get_last_n(0).is_empty());
    let mut none = LogBuffer::new(0);
    none.append("INFO", "x".to_string());
    assert!(none.get_last_n(1).is_empty());
}

#[test]
fn appended_lines_carry_the_time() {
    let mut b = LogBuffer::new(5);
    b.append("INFO", "x".to_string());
    let line = &b.get_last_n(1)[0];
    assert_eq!(line.0, "INFO");
    assert_eq!(line.2, "x");
    assert!(line.1 > 1705314600);
}

#[test]
fn writer_stores_whole_lines() {
    let mut w = LogBufferWriter::new(LogBuffer::new(10));
    assert!(w.accepts(b"DEBUG: one\n  \nINFO: t"));
    assert_eq!(w.write(b"DEBUG: one\n  \nINFO: t"), 21);
    assert!(w.accepts(b"wo\nplain\nWARN: x\nERROR: y\nrest"));
    w.write(b"wo\nplain\nWARN: x\nERROR: y\nrest");
    assert_eq!(w.current_line, "rest");
    assert!(w.accepts_flush());
    w.flush();
    w.write(b"WARN:   spaced  \n");
    w.flush();
    let lines: Vec<(String, String)> =
        w.buffer.get_last_n(10).into_iter().map(|(l, _, m)| (l, m)).collect();
    let expected: Vec<(String, String)> = [
        ("DEBUG", "one"),
        ("INFO", "two"),
        ("INFO", "plain"),
        ("WARN", "x"),
        ("ERROR", "y"),
        ("INFO", "rest"),
        ("WARN", "spaced"),
    ]
    .iter()
    .map(|(l, m)| (l.to_string(), m.to_string()))
    .collect();
    assert_eq!(lines, expected);
}

#[test]
fn writer_passes_over_invalid_text() {
    let mut w = LogBufferWriter::new(LogBuffer::new(10));
    assert!(w.accepts(&[0xff, b'\n']));
    assert_eq!(w.write(&[0xff, b'\n']), 2);
    assert!(w.buffer.get_last_n(1).is_empty());
    assert_eq!(w.current_line, "");
}

#[test]
fn level_without_separator_is_not_accepted() {
    let w = LogBufferWriter::new(LogBuffer::new(10));
    assert!(!w.accepts(b"INFO\n"));
    assert!(!w.accepts("INFO\u{e9}\n".as_bytes()));
    assert!(w.accepts(b"INFO"));
    assert!(w.accepts(b"INFO:\n"));
}

fn snapshot() -> DashboardSnapshot {
    let mut s = DashboardSnapshot::empty();
    s.user_ids = vec!["alice".to_string(), "bob".to_string(), "carol".to_string()];
    s.queues_len.insert("alice".to_string(), 2);
    s.processing_counts.insert("alice".to_string(), 1);
    s.queues_len.insert("carol".to_string(), 4);
    s.processed_counts.insert("bob".to_string(), 5);
    s.dropped_counts.insert("bob".to_string(), 6);
    s.user_ips.insert("alice".to_string(), "10.0.0.1".to_string());
    s.user_ips.insert("bob".to_string(), "10.0.0.2".to_string());
    s.vip_list = vec!["bob".to_string()];
    s
}

#[test]
fn totals_are_shown() {
    let s = snapshot();
    assert!(s.is_countable());
    let line = TuiDashboard::new().render_stats(&s);
    assert_eq!(line.panel, "USERS");
    assert_eq!((line.waiting, line.done, line.dropped), (7, 5, 6));
    let mut full = snapshot();
    full.queues_len.insert("dave".to_string(), usize::MAX);
    assert!(!full.is_countable());
}

#[test]
fn users_are_marked() {
    let mut s = snapshot();
    let d = TuiDashboard::new();
    let rows = d.render_users(&s);
    assert_eq!(rows.len(), 3);
    assert_eq!(rows[0].mark, UserMark::Processing);
    assert_eq!(rows[0].waiting, 3);
    assert_eq!(rows[0].ip, "10.0.0.1");
    assert_eq!(rows[1].mark, UserMark::Vip);
    assert_eq!((rows[1].done, rows[1].dropped), (5, 6));
    assert_eq!(rows[2].mark, UserMark::Queued);
    assert_eq!(rows[2].ip, "");
    s.blocked_ips.insert("10.0.0.2".to_string());
    s.queues_len = StrMap::new();
    let rows = d.render_users(&s);
    assert_eq!(rows[1].mark, UserMark::Blocked);
    assert!(rows[1].is_vip && rows[1].is_blocked);
    assert_eq!(rows[2].mark, UserMark::Idle);
    assert_eq!(UserMark::Vip.symbol(), "★ ");
    assert_eq!(UserMark::Idle.paint(), Paint::DarkGray);
    let queues = d.render_queues(&s);
    assert_eq!(queues[0].paint, Paint::Cyan);
    assert_eq!(queues[1].paint, Paint::Magenta);
    assert_eq!(queues[2].paint, Paint::Green);
    assert_eq!(queues[0].waiting, 1);
}

#[test]
fn backends_are_listed_with_their_models() {
    let mut s = snapshot();
    let mut status = StrMap::new();
    status.insert("m2".to_string(), false);
    s.backends = vec![
        BackendSnapshot {
            url: "http://https://host:1".to_string(),
            active_requests: 1,
            processed_count: 2,
            is_online: true,
            configured_models: vec!["m1".to_string(), "m2".to_string()],
            model_status: status,
        },
        BackendSnapshot {
            url: "https://other".to_string(),
            active_requests: 0,
            processed_count: 0,
            is_online: false,
            configured_models: vec![],
            model_status: StrMap::new(),
        },
    ];
    s.model_public_names.insert("m1".to_string(), "One".to_string());
    let mut d = TuiDashboard::new();
    assert_eq!(d.render_backends(&s).len(), 2);
    d.show_models = true;
    let lines = d.render_backends(&s);
    assert_eq!(lines.len(), 5);
    assert!(matches!(&lines[0], BackendLine::Backend { url, is_online: true, active: 1, done: 2 } if url == "host:1"));
    assert!(matches!(&lines[1], BackendLine::Model { text, available: true } if text == "  ✓ One"));
    assert!(matches!(&lines[2], BackendLine::Model { text, available: false } if text == "  ✗ m2"));
    assert!(matches!(&lines[3], BackendLine::Backend { url, is_online: false, .. } if url == "other"));
    assert!(matches!(&lines[4], BackendLine::NoModels));
}

#[test]
fn blocked_items_are_sorted() {
    let mut s = snapshot();
    s.blocked_users.insert("zoe".to_string());
    s.blocked_users.insert("10.0.0.9".to_string());
    s.blocked_ips.insert("10.0.0.9".to_string());
    s.blocked_ips.insert("10.0.0.1".to_string());
    let items: Vec<(&str, String)> =
        blocked_items(&s).iter().map(|i| (i.kind(), i.value.clone())).collect();
    assert_eq!(
        items,
        vec![
            ("IP", "10.0.0.1".to_string()),
            ("IP", "10.0.0.9".to_string()),
            ("USER", "10.0.0.9".to_string()),
            ("USER", "zoe".to_string())
        ]
    );
}

fn texts(commands: &[DashboardCmd]) -> Vec<String> {
    commands.iter().map(|c| format!("{:?}", c)).collect()
}

#[test]
fn keys_move_the_selection() {
    let mut s = snapshot();
    let mut d = TuiDashboard::new();
    assert_eq!(d.table_state, None);
    d.prepare(&s);
    assert_eq!(d.table_state, Some(0));
    d.handle_key(Key::Up, &mut s);
    assert_eq!(d.table_state, Some(0));
    for _ in 0..5 {
        d.handle_key(Key::Down, &mut s);
    }
    assert_eq!(d.table_state, Some(2));
    d.handle_key(Key::Char('k'), &mut s);
    assert_eq!(d.table_state, Some(1));
    d.handle_key(Key::Tab, &mut s);
    assert_eq!(d.active_panel, CurrentPanel::Blocked);
    d.handle_key(Key::Char('j'), &mut s);
    assert_eq!(d.blocked_table_state, None);
    s.blocked_users.insert("x".to_string());
    d.handle_key(Key::Char('j'), &mut s);
    assert_eq!(d.blocked_table_state, Some(0));
    d.handle_key(Key::Char('j'), &mut s);
    assert_eq!(d.blocked_table_state, Some(0));
    d.handle_key(Key::Char('h'), &mut s);
    assert_eq!(d.active_panel, CurrentPanel::Users);
    s.user_ids = vec![];
    d.prepare(&s);
    assert_eq!(d.table_state, None);
}

#[test]
fn keys_ask_the_server() {
    let mut s = snapshot();
    let mut d = TuiDashboard::new();
    assert!(d.handle_key(Key::Char('x'), &mut s).commands.is_empty());
    d.table_state = Some(0);
    assert_eq!(texts(&d.handle_key(Key::Char('p'), &mut s).commands), vec!["ToggleVip(\"alice\")"]);
    assert_eq!(s.vip_list, vec!["bob".to_string(), "alice".to_string()]);
    d.handle_key(Key::Char('p'), &mut s);
    assert_eq!(s.vip_list, vec!["bob".to_string()]);
    assert_eq!(texts(&d.handle_key(Key::Char('x'), &mut s).commands), vec!["BlockUser(\"alice\")"]);
    assert_eq!(texts(&d.handle_key(Key::Char('X'), &mut s).commands), vec!["BlockIp(\"10.0.0.1\")"]);
    assert_eq!(
        texts(&d.handle_key(Key::Char('u'), &mut s).commands),
        vec!["UnblockIp(\"10.0.0.1\")", "UnblockUser(\"alice\")"]
    );
    d.table_state = Some(2);
    assert!(d.handle_key(Key::Char('X'), &mut s).commands.is_empty());
    assert_eq!(texts(&d.handle_key(Key::Char('u'), &mut s).commands), vec!["UnblockUser(\"carol\")"]);
    s.blocked_ips.insert("10.0.0.7".to_string());
    s.blocked_users.insert("bob".to_string());
    d.active_panel = CurrentPanel::Blocked;
    d.blocked_table_state = Some(0);
    assert_eq!(texts(&d.handle_key(Key::Char('u'), &mut s).commands), vec!["UnblockIp(\"10.0.0.7\")"]);
    d.blocked_table_state = Some(1);
    assert_eq!(texts(&d.handle_key(Key::Char('u'), &mut s).commands), vec!["UnblockUser(\"bob\")"]);
    d.blocked_table_state = Some(2);
    assert!(d.handle_key(Key::Char('u'), &mut s).commands.is_empty());
    assert!(d.handle_key(Key::Char('p'), &mut s).commands.is_empty());
}

#[test]
fn keys_switch_views_and_quit() {
    let mut s = snapshot();
    let mut d = TuiDashboard::new();
    assert!(!d.handle_key(Key::Char('?'), &mut s).quit);
    d.handle_key(Key::Char('m'), &mut s);
    assert!(d.show_help && d.show_models);
    d.handle_key(Key::Char('?'), &mut s);
    assert!(!d.show_help);
    assert!(!d.handle_key(Key::Other, &mut s).quit);
    assert!(d.handle_key(Key::Esc, &mut s).quit);
    assert!(d.handle_key(Key::Char('q'), &mut s).quit);
}

#[test]
fn toggling_takes_out_every_entry() {
    let mut vips = vec!["a".to_string(), "b".to_string(), "a".to_string()];
    toggle_vip(&mut vips, "a");
    assert_eq!(vips, vec!["b".to_string()]);
    toggle_vip(&mut vips, "c");
    assert_eq!(vips, vec!["b".to_string(), "c".to_string()]);
}

#[test]
fn log_levels_have_colours_and_a_column() {
    assert_eq!(level_paint("DEBUG"), Paint::Blue);
    assert_eq!(level_paint("INFO"), Paint::White);
    assert_eq!(level_paint("WARN"), Paint::Yellow);
    assert_eq!(level_paint("ERROR"), Paint::Red);
    assert_eq!(level_paint("TRACE"), Paint::Gray);
    assert_eq!(level_text("INFO"), "INFO  ");
    assert_eq!(level_text("ERROR"), "ERROR ");
    assert_eq!(level_text(""), "      ");
}
