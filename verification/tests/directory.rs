use tokio_im::common::user_manager::{register_user, unregister_user, Directory};

fn names(directory: &Directory) -> Vec<String> {
    directory.usernames()
}

#[test]
fn a_new_directory_is_empty() {
    let directory = Directory::new();
    assert_eq!(directory.len(), 0);
    assert_eq!(directory.lookup("zhangsan"), None);
    assert!(directory.usernames().is_empty());
    assert!(directory.handles().is_empty());
}

#[test]
fn register_puts_a_user_online() {
    let mut directory = Directory::new();
    register_user(&mut directory, "zhangsan".to_string(), 11);
    assert_eq!(directory.len(), 1);
    assert_eq!(directory.lookup("zhangsan"), Some(11));
    assert_eq!(directory.lookup("lisi"), None);
    assert_eq!(names(&directory), vec!["zhangsan".to_string()]);
    assert_eq!(directory.handles(), vec![11]);
}

#[test]
fn register_keeps_the_order_of_arrival() {
    let mut directory = Directory::new();
    register_user(&mut directory, "zhangsan".to_string(), 1);
    register_user(&mut directory, "lisi".to_string(), 2);
    register_user(&mut directory, "wangwu".to_string(), 3);
    assert_eq!(
        names(&directory),
        vec!["zhangsan".to_string(), "lisi".to_string(), "wangwu".to_string()]
    );
    assert_eq!(directory.handles(), vec![1, 2, 3]);
}

#[test]
fn a_second_registration_replaces_the_first() {
    let mut directory = Directory::new();
    register_user(&mut directory, "zhangsan".to_string(), 1);
    register_user(&mut directory, "lisi".to_string(), 2);
    register_user(&mut directory, "zhangsan".to_string(), 3);
    assert_eq!(directory.len(), 2);
    assert_eq!(directory.lookup("zhangsan"), Some(3));
    assert_eq!(directory.lookup("lisi"), Some(2));
    assert_eq!(names(&directory), vec!["zhangsan".to_string(), "lisi".to_string()]);
    assert_eq!(directory.handles(), vec![3, 2]);
}

#[test]
fn usernames_are_told_apart_by_case() {
    let mut directory = Directory::new();
    register_user(&mut directory, "Lisi".to_string(), 1);
    register_user(&mut directory, "lisi".to_string(), 2);
    register_user(&mut directory, "lisi ".to_string(), 3);
    assert_eq!(directory.len(), 3);
    assert_eq!(directory.lookup("Lisi"), Some(1));
    assert_eq!(directory.lookup("lisi"), Some(2));
    assert_eq!(directory.lookup("lisi "), Some(3));
    assert_eq!(directory.lookup("LISI"), None);
}

#[test]
fn the_empty_username_is_a_username() {
    let mut directory = Directory::new();
    register_user(&mut directory, String::new(), 5);
    assert_eq!(directory.lookup(""), Some(5));
    unregister_user(&mut directory, "");
    assert_eq!(directory.lookup(""), None);
}

#[test]
fn two_usernames_may_share_a_handle() {
    let mut directory = Directory::new();
    register_user(&mut directory, "a".to_string(), 7);
    register_user(&mut directory, "b".to_string(), 7);
    assert_eq!(directory.handles(), vec![7, 7]);
}

#[test]
fn unregister_takes_a_user_offline() {
    let mut directory = Directory::new();
    register_user(&mut directory, "zhangsan".to_string(), 1);
    register_user(&mut directory, "lisi".to_string(), 2);
    register_user(&mut directory, "wangwu".to_string(), 3);
    unregister_user(&mut directory, "lisi");
    assert_eq!(directory.len(), 2);
    assert_eq!(directory.lookup("lisi"), None);
    assert_eq!(directory.lookup("zhangsan"), Some(1));
    assert_eq!(directory.lookup("wangwu"), Some(3));
    assert_eq!(names(&directory), vec!["zhangsan".to_string(), "wangwu".to_string()]);
    assert_eq!(directory.handles(), vec![1, 3]);
}

#[test]
fn unregister_of_an_absent_user_does_nothing() {
    let mut directory = Directory::new();
    unregister_user(&mut directory, "nobody");
    assert_eq!(directory.len(), 0);
    register_user(&mut directory, "zhangsan".to_string(), 1);
    unregister_user(&mut directory, "nobody");
    unregister_user(&mut directory, "zhangsa");
    unregister_user(&mut directory, "zhangsan!");
    assert_eq!(directory.len(), 1);
    assert_eq!(directory.lookup("zhangsan"), Some(1));
}

#[test]
fn unregister_twice_is_as_good_as_once() {
    let mut directory = Directory::new();
    register_user(&mut directory, "zhangsan".to_string(), 1);
    unregister_user(&mut directory, "zhangsan");
    unregister_user(&mut directory, "zhangsan");
    assert_eq!(directory.len(), 0);
    assert_eq!(directory.lookup("zhangsan"), None);
}

#[test]
fn lookup_finds_the_most_recent_registration() {
    let mut directory = Directory::new();
    register_user(&mut directory, "u".to_string(), 1);
    unregister_user(&mut directory, "u");
    register_user(&mut directory, "u".to_string(), 2);
    register_user(&mut directory, "v".to_string(), 9);
    register_user(&mut directory, "u".to_string(), 3);
    unregister_user(&mut directory, "v");
    assert_eq!(directory.lookup("u"), Some(3));
    assert_eq!(directory.lookup("v"), None);
    assert_eq!(directory.len(), 1);
    unregister_user(&mut directory, "u");
    assert_eq!(directory.lookup("u"), None);
}

#[test]
fn names_of_many_users_stay_distinct() {
    let mut directory = Directory::new();
    for round in 0..3u64 {
        for user in 0..20u64 {
            register_user(&mut directory, format!("user{}", user), round * 100 + user);
        }
    }
    assert_eq!(directory.len(), 20);
    let mut seen = directory.usernames();
    seen.sort();
    seen.dedup();
    assert_eq!(seen.len(), 20);
    for user in 0..20u64 {
        assert_eq!(directory.lookup(&format!("user{}", user)), Some(200 + user));
    }
}
