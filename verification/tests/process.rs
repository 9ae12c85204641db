use dsh_launcher::listeners::{
    kill_list, listener_pids, sort_listeners, TableAction, TableQuery, TcpRow, BUFFER_TOO_SMALL,
    LISTENING, SUCCESS,
};
use dsh_launcher::process::{collect_known_ancestors, is_dsh_process_name, may_terminate};
use dsh_launcher::tree::kill_process_tree;
use windows_sys::Win32::Foundation::{ERROR_INSUFFICIENT_BUFFER, ERROR_SUCCESS};
use windows_sys::Win32::NetworkManagement::IpHelper::MIB_TCP_STATE_LISTEN;

fn named(rows: &[(u32, u32, &str)]) -> Vec<(u32, u32, String)> {
    rows.iter().map(|r| (r.0, r.1, r.2.to_string())).collect()
}

#[test]
fn collect_known_ancestors_stops_at_non_dsh_process() {
    let processes = vec![
        (10, 3, "node.exe".to_string()),
        (3, 2, "npx.exe".to_string()),
        (2, 1, "cmd.exe".to_string()),
        (1, 0, "explorer.exe".to_string()),
    ];
    assert_eq!(collect_known_ancestors(10, &processes), vec![3, 2]);

    let unrelated = vec![
        (20, 5, "node.exe".to_string()),
        (5, 4, "explorer.exe".to_string()),
        (4, 0, "explorer.exe".to_string()),
    ];
    assert!(collect_known_ancestors(20, &unrelated).is_empty());
}

#[test]
fn ancestors_end_on_cycles_and_gaps() {
    let cycle = named(&[(1, 2, "node.exe"), (2, 1, "cmd.exe")]);
    assert_eq!(collect_known_ancestors(1, &cycle), vec![2, 1]);
    let itself = named(&[(1, 1, "node.exe")]);
    assert_eq!(collect_known_ancestors(1, &itself), vec![1]);
    assert!(collect_known_ancestors(9, &cycle).is_empty());
    let zero = named(&[(1, 0, "node.exe"), (0, 0, "cmd.exe")]);
    assert!(collect_known_ancestors(1, &zero).is_empty());
}

#[test]
fn dsh_process_name_allowlist_rejects_unrelated_services() {
    assert!(is_dsh_process_name("node.exe"));
    assert!(is_dsh_process_name("cmd.exe"));
    assert!(is_dsh_process_name("dsh.exe"));
    assert!(is_dsh_process_name("npx.exe"));
    assert!(!is_dsh_process_name("svchost.exe"));
    assert!(!is_dsh_process_name("python.exe"));
}

#[test]
fn this_process_and_idle_are_spared() {
    assert!(may_terminate(5, 6));
    assert!(!may_terminate(6, 6));
    assert!(!may_terminate(0, 6));
}

#[test]
fn children_are_ended_before_their_parents() {
    let table = [(2, 1), (3, 1), (4, 2), (5, 3), (9, 8), (1, 0)];
    assert_eq!(kill_process_tree(&[1], &table), vec![4, 2, 5, 3, 1]);
    assert_eq!(kill_process_tree(&[3, 1], &table), vec![5, 3, 4, 2, 1]);
    assert_eq!(kill_process_tree(&[7], &table), vec![7]);
    assert!(kill_process_tree(&[0], &table).is_empty());
    assert!(kill_process_tree(&[], &table).is_empty());
}

#[test]
fn cycles_in_the_table_are_cut() {
    assert_eq!(kill_process_tree(&[1], &[(2, 1), (1, 2), (3, 3)]), vec![2, 1]);
    assert_eq!(kill_process_tree(&[3], &[(3, 3)]), vec![3]);
}

#[test]
fn listeners_by_port() {
    let row = |state: u32, port: u16, pid: u32| TcpRow {
        state,
        local_port: u32::from(port.to_be()) | 0xabcd_0000,
        pid,
    };
    // On a machine of the other byte order the field would hold the port as it is.
    if cfg_little() {
        let table = [row(2, 3080, 11), row(5, 3080, 12), row(2, 3081, 13), row(2, 3080, 14)];
        assert_eq!(listener_pids(&table, 3080), vec![11, 14]);
        assert!(listener_pids(&table, 1).is_empty());
    }
    let plain = [TcpRow { state: LISTENING, local_port: 0x080c, pid: 1 }];
    assert_eq!(listener_pids(&plain, 0x0c08), vec![1]);
}

fn cfg_little() -> bool {
    1u16.to_le() == 1
}

#[test]
fn table_is_asked_for_three_times() {
    let (mut query, action) = TableQuery::new();
    assert_eq!(action, TableAction::AskSize);
    assert_eq!(query.sized(BUFFER_TOO_SMALL, 17), TableAction::Read(3));
    assert_eq!(query.sized(BUFFER_TOO_SMALL, 16), TableAction::Read(2));
    assert_eq!(query.sized(BUFFER_TOO_SMALL, 0), TableAction::Nothing);
    assert_eq!(query.sized(SUCCESS, 17), TableAction::Nothing);
    assert_eq!(query.read(BUFFER_TOO_SMALL), TableAction::AskSize);
    assert_eq!(query.read(BUFFER_TOO_SMALL), TableAction::AskSize);
    assert_eq!(query.read(BUFFER_TOO_SMALL), TableAction::Nothing);
    let (mut query, _) = TableQuery::new();
    assert_eq!(query.read(5), TableAction::Nothing);
    let (mut query, _) = TableQuery::new();
    assert_eq!(query.read(SUCCESS), TableAction::Rows);
}

#[test]
fn strangers_are_left_alone() {
    let table = named(&[
        (10, 3, "node.exe"),
        (3, 2, "cmd.exe"),
        (2, 1, "explorer.exe"),
        (20, 2, "svchost.exe"),
        (30, 2, "cmd.exe"),
    ]);
    let sorted = sort_listeners(&[10, 20, 30, 40], &table);
    assert_eq!(sorted.roots, vec![10, 30, 40]);
    assert_eq!(sorted.ancestor_roots, vec![10]);
    assert_eq!(sorted.skipped, vec![(20, "svchost.exe".to_string())]);
    let processes = [(11, 10), (10, 3), (3, 2), (20, 2), (30, 2)];
    assert_eq!(
        kill_list(&sorted.roots, &sorted.ancestor_roots, &table, &processes),
        vec![11, 10, 30, 40, 3]
    );
}

#[test]
fn numbers_of_the_tcp_table() {
    assert_eq!(LISTENING, MIB_TCP_STATE_LISTEN as u32);
    assert_eq!(BUFFER_TOO_SMALL, ERROR_INSUFFICIENT_BUFFER);
    assert_eq!(SUCCESS, ERROR_SUCCESS);
}
