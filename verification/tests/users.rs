use linux_programming::database::adapters::fread_fwrite_struct::record_offset;
use linux_programming::database::adapters::mmap::MmapDb;
use linux_programming::database::adapters::mysql::{
    csv_row, find_user_by_id_sql, insert_user_sql, is_select_statement, parse_user_row,
    update_username_sql,
};
use linux_programming::database::models::user::{CrudUserDao, User};
use linux_programming::dylibs_binding::dbm::StoreMode;

fn test_user_crud<DB: CrudUserDao>(db_adapter: &mut DB) {
    db_adapter.insert_sample_data();
    let users = db_adapter.select_all();
    assert_eq!(users.len(), User::LEN);

    assert_eq!(db_adapter.find_user_by_id(3).username, *b"user_03");
    db_adapter.update_username_by_id(3, *b"tuesday");
    assert_eq!(db_adapter.find_user_by_id(3).username, *b"tuesday");
}

#[test]
fn test_mmap_database() {
    let mut db_adapter = MmapDb::new();
    test_user_crud(&mut db_adapter);
}

#[test]
fn a_fresh_region_is_zero_filled() {
    let db = MmapDb::new();
    for user in db.select_all() {
        assert_eq!(user.user_id, 0);
        assert_eq!(user.username, [0; 7]);
    }
    assert_eq!(MmapDb::MAPPED_BYTES, User::LEN * User::SIZE);
}

#[test]
fn sample_data_lists_users_in_id_order() {
    let mut db = MmapDb::new();
    db.insert_sample_data();
    let users = db.select_all();
    for (i, user) in users.iter().enumerate() {
        assert_eq!(user.user_id as usize, i);
        assert_eq!(user.username, User::new(i as u8).username);
    }
    assert_eq!(users[9].username, *b"user_09");
}

#[test]
fn renaming_leaves_other_users_alone() {
    let mut db = MmapDb::new();
    db.insert_sample_data();
    db.update_username_by_id(0, *b"account");
    assert_eq!(db.find_user_by_id(0).username, *b"account");
    assert_eq!(db.find_user_by_id(0).user_id, 0);
    assert_eq!(db.find_user_by_id(1).username, *b"user_01");
    assert_eq!(db.find_user_by_id(9).username, *b"user_09");
}

#[test]
fn user_ids_from_zero_to_nine_are_valid() {
    assert!(User::user_id_is_valid(0));
    assert!(User::user_id_is_valid(9));
    assert!(!User::user_id_is_valid(10));
    assert!(!User::user_id_is_valid(255));
}

#[test]
fn sample_users_are_named_by_their_id() {
    let user = User::new(7);
    assert_eq!(user.user_id, 7);
    assert_eq!(user.username, *b"user_07");
    assert_eq!(User::new(0).username, *b"user_00");
}

#[test]
fn a_record_is_the_id_then_the_name() {
    let user = User::new(2);
    let bytes = user.to_bytes();
    assert_eq!(bytes, [2, b'u', b's', b'e', b'r', b'_', b'0', b'2']);
    let back = User::from_bytes(&bytes);
    assert_eq!(back.user_id, 2);
    assert_eq!(back.username, *b"user_02");
    let raw = [3u8, b'a', b'c', b'c', b'o', b'u', b'n', b't'];
    assert_eq!(User::from_bytes(&raw).to_bytes(), raw);
    assert_eq!(std::mem::size_of::<User>(), User::SIZE);
}

#[test]
fn records_follow_each_other_in_id_order() {
    assert_eq!(record_offset(0), 0);
    assert_eq!(record_offset(3), 24);
    assert_eq!(record_offset(9), 72);
}

#[test]
fn sql_statements() {
    let user = User::new(4);
    assert_eq!(
        insert_user_sql(&user),
        "insert into users(user_id, username) values(4, 'user_04')"
    );
    assert_eq!(
        find_user_by_id_sql(3),
        "select user_id, username from users where user_id=3"
    );
    assert_eq!(
        update_username_sql(3, b"tuesday"),
        "update users set username='tuesday' where user_id=3"
    );
}

#[test]
fn select_statements_are_recognised_in_either_case() {
    assert!(is_select_statement("select last_insert_id()"));
    assert!(is_select_statement("SELECT user_id FROM users WHERE username='user_01'"));
    assert!(!is_select_statement("drop table if exists users"));
    assert!(!is_select_statement("Select 1"));
    assert!(!is_select_statement(""));
}

#[test]
fn rows_are_joined_with_commas() {
    assert_eq!(csv_row(&vec![]), None);
    assert_eq!(csv_row(&vec![b"1".to_vec()]), Some(b"1".to_vec()));
    assert_eq!(
        csv_row(&vec![b"1".to_vec(), b"user_01".to_vec(), b"".to_vec()]),
        Some(b"1,user_01,".to_vec())
    );
}

#[test]
fn dbm_store_modes() {
    assert_eq!(StoreMode::DBM_INSERT, 0);
    assert_eq!(StoreMode::DBM_REPLACE, 1);
}

#[test]
fn select_all_lists_every_user_once() {
    let mut db = MmapDb::new();
    db.insert_sample_data();
    let users = db.select_all();
    let mut ids: Vec<u8> = users.iter().map(|u| u.user_id).collect();
    ids.sort();
    assert_eq!(ids, (0..10).collect::<Vec<u8>>());
}

#[test]
fn rows_read_back_as_users() {
    let user = parse_user_row("1,user_01").unwrap();
    assert_eq!(user.user_id, 1);
    assert_eq!(user.username, *b"user_01");
    let user = parse_user_row("+3,tuesday").unwrap();
    assert_eq!((user.user_id, user.username), (3, *b"tuesday"));
    let user = parse_user_row("255,a,b,cde").unwrap();
    assert_eq!((user.user_id, user.username), (255, *b"a,b,cde"));
    let user = parse_user_row("7,t\u{fc}sday").unwrap();
    assert_eq!(user.username, *"t\u{fc}sday".as_bytes());
}

#[test]
fn rows_that_are_not_users() {
    assert!(parse_user_row("1 user_01").is_none());
    assert!(parse_user_row("1,user_1").is_none());
    assert!(parse_user_row("1,user_001").is_none());
    assert!(parse_user_row("x,user_01").is_none());
    assert!(parse_user_row("256,user_01").is_none());
    assert!(parse_user_row(",user_01").is_none());
    assert!(parse_user_row("-1,user_01").is_none());
    assert!(parse_user_row("").is_none());
}

fn debug_form(user: &User) -> String {
    format!(
        "User {{ user_id: {}, username: {:?} }}",
        user.user_id,
        String::from_utf8(user.username.to_vec()).unwrap()
    )
}

#[test]
fn users_print_with_the_name_as_text() {
    let user = User::new(3);
    assert_eq!(user.debug_text(), "User { user_id: 3, username: \"user_03\" }");
    assert_eq!(user.debug_text(), debug_form(&user));
}

#[test]
fn user_text_escapes_like_debug() {
    for b in 0u8..128 {
        let user = User { user_id: b, username: [b, b'a', b, b'"', b'\\', b'\n', b] };
        assert_eq!(user.debug_text(), debug_form(&user), "byte {}", b);
    }
}
