use rip::app::{command_for, App, Command, Key, KillTarget, Request};
use rip::binding::{PortBinding, Protocol};
use rip::message::{failed_message, found_message, killed_message};
use rip::terminator::KillOutcome;

const HEADER: &str = "COMMAND PID USER FD TYPE DEVICE SIZE/OFF NODE NAME\n";

fn report(rows: &[&str]) -> Vec<u8> {
    let mut text = String::from(HEADER);
    for row in rows {
        text.push_str(row);
        text.push('\n');
    }
    text.into_bytes()
}

fn three() -> Vec<u8> {
    report(&[
        "web 100 u 1u IPv4 0x1 0t0 TCP *:80 (LISTEN)",
        "db 200 u 1u IPv4 0x1 0t0 TCP *:5432 (LISTEN)",
        "dns 300 u 1u IPv4 0x1 0t0 UDP *:5353",
    ])
}

fn pids(app: &App) -> Vec<u32> {
    app.processes().iter().map(|b| b.pid()).collect()
}

fn failed(status: &str) -> KillOutcome {
    KillOutcome::Exited { success: false, status: status.to_string() }
}

fn succeeded() -> KillOutcome {
    KillOutcome::Exited { success: true, status: "exit status: 0".to_string() }
}

#[test]
fn session_begins_with_the_first_scan() {
    let app = App::new(Some(&three()));
    assert_eq!(pids(&app), vec![100, 300, 200]);
    assert_eq!(app.selected(), Some(0));
    assert_eq!(app.message(), Some("Found 3 processes"));
    assert!(!app.should_quit());
    assert_eq!(
        app.processes()[1],
        PortBinding::new(300, 5353, Protocol::Udp, "dns".to_string()).unwrap()
    );
}

#[test]
fn session_begins_empty_where_the_scan_failed() {
    let app = App::new(None);
    assert_eq!(pids(&app), Vec::<u32>::new());
    assert_eq!(app.selected(), None);
    assert_eq!(app.message(), Some("Found 0 processes"));
    assert!(!app.should_quit());
}

#[test]
fn keys_map_to_commands() {
    assert_eq!(command_for(Key::Char('q')), Command::Quit);
    assert_eq!(command_for(Key::Esc), Command::Quit);
    assert_eq!(command_for(Key::Down), Command::Next);
    assert_eq!(command_for(Key::Char('j')), Command::Next);
    assert_eq!(command_for(Key::Up), Command::Previous);
    assert_eq!(command_for(Key::Char('k')), Command::Previous);
    assert_eq!(command_for(Key::Enter), Command::Kill);
    assert_eq!(command_for(Key::Char('d')), Command::Kill);
    assert_eq!(command_for(Key::Char('r')), Command::Refresh);
}

#[test]
fn other_keys_are_ignored() {
    for key in [Key::Other, Key::Char('x'), Key::Char('Q'), Key::Char('J'), Key::Char('R'),
        Key::Char(' '), Key::Char('\n')]
    {
        assert_eq!(command_for(key), Command::Ignore);
        let mut app = App::new(Some(&three()));
        app.next();
        assert_eq!(app.handle_key(key), Request::Nothing);
        assert_eq!(pids(&app), vec![100, 300, 200]);
        assert_eq!(app.selected(), Some(1));
        assert_eq!(app.message(), Some("Found 3 processes"));
        assert!(!app.should_quit());
    }
}

#[test]
fn step_keys_move_the_selection_round_the_list() {
    let mut app = App::new(Some(&three()));
    assert_eq!(app.handle_key(Key::Down), Request::Nothing);
    assert_eq!(app.selected(), Some(1));
    assert_eq!(app.handle_key(Key::Char('j')), Request::Nothing);
    assert_eq!(app.selected(), Some(2));
    assert_eq!(app.handle_key(Key::Down), Request::Nothing);
    assert_eq!(app.selected(), Some(0));
    assert_eq!(app.handle_key(Key::Up), Request::Nothing);
    assert_eq!(app.selected(), Some(2));
    assert_eq!(app.handle_key(Key::Char('k')), Request::Nothing);
    assert_eq!(app.selected(), Some(1));
    app.previous();
    app.previous();
    assert_eq!(app.selected(), Some(2));
    app.next();
    assert_eq!(app.selected(), Some(0));
    assert_eq!(pids(&app), vec![100, 300, 200]);
}

#[test]
fn step_keys_do_nothing_in_an_empty_list() {
    let mut app = App::new(Some(&report(&[])));
    app.next();
    assert_eq!(app.selected(), None);
    app.previous();
    assert_eq!(app.selected(), None);
    assert_eq!(app.handle_key(Key::Down), Request::Nothing);
    assert_eq!(app.handle_key(Key::Up), Request::Nothing);
    assert_eq!(app.selected(), None);
}

#[test]
fn quit_keys_end_the_session() {
    for key in [Key::Char('q'), Key::Esc] {
        let mut app = App::new(Some(&three()));
        assert_eq!(app.handle_key(key), Request::Nothing);
        assert!(app.should_quit());
        assert_eq!(app.selected(), Some(0));
        assert_eq!(pids(&app), vec![100, 300, 200]);
    }
}

#[test]
fn session_that_is_over_takes_no_more_keys() {
    let mut app = App::new(Some(&three()));
    app.handle_key(Key::Esc);
    for key in [Key::Down, Key::Up, Key::Enter, Key::Char('r'), Key::Char('d'), Key::Char('q')] {
        assert_eq!(app.handle_key(key), Request::Nothing);
        assert!(app.should_quit());
        assert_eq!(app.selected(), Some(0));
    }
}

#[test]
fn refresh_key_asks_for_a_scan() {
    let mut app = App::new(Some(&three()));
    assert_eq!(app.handle_key(Key::Char('r')), Request::Scan);
    assert_eq!(app.selected(), Some(0));
    assert_eq!(pids(&app), vec![100, 300, 200]);
}

#[test]
fn refresh_replaces_the_list_and_counts() {
    let mut app = App::new(Some(&three()));
    app.refresh_processes(Some(&report(&["web 100 u 1u IPv4 0x1 0t0 TCP *:80 (LISTEN)"])));
    assert_eq!(pids(&app), vec![100]);
    assert_eq!(app.message(), Some("Found 1 processes"));
    assert_eq!(app.selected(), Some(0));
}

#[test]
fn refresh_after_a_failed_scan_empties_the_list() {
    let mut app = App::new(Some(&three()));
    app.next();
    app.refresh_processes(None);
    assert_eq!(pids(&app), Vec::<u32>::new());
    assert_eq!(app.selected(), None);
    assert_eq!(app.message(), Some("Found 0 processes"));
    app.refresh_processes(Some(&three()));
    assert_eq!(app.selected(), Some(0));
    assert_eq!(app.message(), Some("Found 3 processes"));
}

#[test]
fn refresh_keeps_a_selection_that_is_still_a_row() {
    let mut app = App::new(Some(&three()));
    app.next();
    app.refresh_processes(Some(&three()));
    assert_eq!(app.selected(), Some(1));
    app.refresh_processes(Some(&report(&[
        "a 1 u 1u IPv4 0x1 0t0 TCP *:1 (LISTEN)",
        "b 2 u 1u IPv4 0x1 0t0 TCP *:2 (LISTEN)",
    ])));
    assert_eq!(app.selected(), Some(1));
}

#[test]
fn kill_key_asks_for_the_end_of_the_selected_process() {
    let mut app = App::new(Some(&three()));
    app.next();
    let target = KillTarget { pid: 300, name: "dns".to_string() };
    assert_eq!(app.kill_selected(), Some(target.clone()));
    assert_eq!(app.handle_key(Key::Enter), Request::Kill(target.clone()));
    assert_eq!(app.handle_key(Key::Char('d')), Request::Kill(target));
    assert_eq!(app.selected(), Some(1));
    assert_eq!(app.message(), Some("Found 3 processes"));
}

#[test]
fn kill_key_asks_for_nothing_in_an_empty_list() {
    let mut app = App::new(None);
    assert_eq!(app.kill_selected(), None);
    assert_eq!(app.handle_key(Key::Enter), Request::Nothing);
    assert_eq!(app.message(), Some("Found 0 processes"));
}

#[test]
fn failed_kill_leaves_list_and_selection_and_names_the_pid() {
    let mut app = App::new(Some(&three()));
    app.next();
    app.next();
    let before = app.processes().clone();
    let target = match app.handle_key(Key::Enter) {
        Request::Kill(target) => target,
        other => panic!("{:?}", other),
    };
    assert_eq!(target.pid, 200);
    let request = app.kill_finished(&target, &failed("exit status: 1"));
    assert_eq!(request, Request::Nothing);
    assert_eq!(app.processes(), &before);
    assert_eq!(app.selected(), Some(2));
    assert_eq!(
        app.message(),
        Some("Failed to kill PID 200: kill command failed with status: exit status: 1")
    );
    assert!(!app.should_quit());
}

#[test]
fn kill_that_could_not_be_run_leaves_list_and_selection() {
    let mut app = App::new(Some(&three()));
    let before = app.processes().clone();
    let target = app.kill_selected().unwrap();
    let outcome = KillOutcome::NotRun { cause: "No such file or directory (os error 2)".to_string() };
    assert_eq!(app.kill_finished(&target, &outcome), Request::Nothing);
    assert_eq!(app.processes(), &before);
    assert_eq!(app.selected(), Some(0));
    assert_eq!(
        app.message(),
        Some("Failed to kill PID 100: No such file or directory (os error 2)")
    );
}

#[test]
fn successful_kill_asks_for_a_scan_and_the_selection_is_reconciled() {
    let mut app = App::new(Some(&three()));
    app.previous();
    assert_eq!(app.selected(), Some(2));
    let target = app.kill_selected().unwrap();
    assert_eq!(target, KillTarget { pid: 200, name: "db".to_string() });
    let request = app.kill_finished(&target, &succeeded());
    assert_eq!(request, Request::Rescan);
    assert_eq!(app.message(), Some("Killed process db (PID: 200)"));
    assert_eq!(pids(&app), vec![100, 300, 200]);
    assert_eq!(app.selected(), Some(2));
    app.rescan_processes(Some(&report(&[
        "web 100 u 1u IPv4 0x1 0t0 TCP *:80 (LISTEN)",
        "dns 300 u 1u IPv4 0x1 0t0 UDP *:53",
    ])));
    assert_eq!(pids(&app), vec![300, 100]);
    assert_eq!(app.selected(), Some(1));
    assert_eq!(app.message(), Some("Killed process db (PID: 200)"));
}

#[test]
fn successful_kill_of_the_only_process_leaves_nothing_selected() {
    let mut app = App::new(Some(&report(&["web 100 u 1u IPv4 0x1 0t0 TCP *:80 (LISTEN)"])));
    let target = app.kill_selected().unwrap();
    assert_eq!(app.kill_finished(&target, &succeeded()), Request::Rescan);
    app.rescan_processes(Some(&report(&[])));
    assert_eq!(app.selected(), None);
    assert_eq!(pids(&app), Vec::<u32>::new());
    assert_eq!(app.message(), Some("Killed process web (PID: 100)"));
}

#[test]
fn successful_kill_of_a_row_in_the_middle_keeps_the_index() {
    let mut app = App::new(Some(&three()));
    app.next();
    let target = app.kill_selected().unwrap();
    assert_eq!(target.pid, 300);
    assert_eq!(app.kill_finished(&target, &succeeded()), Request::Rescan);
    app.rescan_processes(Some(&report(&[
        "web 100 u 1u IPv4 0x1 0t0 TCP *:80 (LISTEN)",
        "db 200 u 1u IPv4 0x1 0t0 TCP *:5432 (LISTEN)",
    ])));
    assert_eq!(app.selected(), Some(1));
    assert_eq!(app.kill_selected().unwrap().pid, 200);
    assert_eq!(app.message(), Some("Killed process dns (PID: 300)"));
}

#[test]
fn confirmation_stays_where_the_scan_after_a_kill_fails() {
    let mut app = App::new(Some(&three()));
    let target = app.kill_selected().unwrap();
    assert_eq!(app.kill_finished(&target, &succeeded()), Request::Rescan);
    app.rescan_processes(None);
    assert_eq!(pids(&app), Vec::<u32>::new());
    assert_eq!(app.selected(), None);
    assert_eq!(app.message(), Some("Killed process web (PID: 100)"));
    assert!(!app.should_quit());
}

#[test]
fn confirmation_is_replaced_by_the_next_refresh() {
    let mut app = App::new(Some(&three()));
    let target = app.kill_selected().unwrap();
    app.kill_finished(&target, &succeeded());
    app.rescan_processes(Some(&three()));
    assert_eq!(app.message(), Some("Killed process web (PID: 100)"));
    assert_eq!(app.handle_key(Key::Char('r')), Request::Scan);
    assert_eq!(app.message(), Some("Killed process web (PID: 100)"));
    app.refresh_processes(Some(&three()));
    assert_eq!(app.message(), Some("Found 3 processes"));
}

#[test]
fn rescan_fits_the_selection_and_keeps_any_message() {
    let mut app = App::new(Some(&three()));
    app.previous();
    let target = app.kill_selected().unwrap();
    app.kill_finished(&target, &failed("exit status: 1"));
    app.rescan_processes(Some(&report(&["web 100 u 1u IPv4 0x1 0t0 TCP *:80 (LISTEN)"])));
    assert_eq!(pids(&app), vec![100]);
    assert_eq!(app.selected(), Some(0));
    assert_eq!(
        app.message(),
        Some("Failed to kill PID 200: kill command failed with status: exit status: 1")
    );
}

#[test]
fn messages_have_their_wording() {
    assert_eq!(found_message(0), "Found 0 processes");
    assert_eq!(found_message(12), "Found 12 processes");
    assert_eq!(killed_message("node", 4242), "Killed process node (PID: 4242)");
    assert_eq!(killed_message("", 0), "Killed process  (PID: 0)");
    assert_eq!(failed_message(7, "no"), "Failed to kill PID 7: no");
    assert_eq!(failed_message(4294967295, ""), "Failed to kill PID 4294967295: ");
}
