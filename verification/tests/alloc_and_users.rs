use vopono::error::VoponoError;
use vopono::net::Ipv4Net;
use vopono::subnet::get_target_subnet;
use vopono::userenv::{
    config_dir, elevate_privileges, get_group, get_username, home_config_path,
    set_config_permissions, ElevationAction,
};

fn block(c: u8) -> Ipv4Net {
    Ipv4Net { a: 10, b: 200, c, d: 1, prefix: 24 }
}

#[test]
fn lowest_free_subnet_wins() {
    assert_eq!(get_target_subnet(&vec![]), Ok(1));
    assert_eq!(get_target_subnet(&vec![block(1), block(2)]), Ok(3));
    // Occupancy order does not matter: the lowest free index wins.
    assert_eq!(get_target_subnet(&vec![block(2), block(1), block(4)]), Ok(3));
}

#[test]
fn foreign_blocks_do_not_occupy() {
    // Only exact 10.200.x.1/24 assignments count as occupied.
    let foreign = vec![
        Ipv4Net { a: 192, b: 168, c: 1, d: 1, prefix: 24 },
        Ipv4Net { a: 10, b: 200, c: 1, d: 1, prefix: 16 },
        Ipv4Net { a: 10, b: 200, c: 1, d: 2, prefix: 24 },
    ];
    assert_eq!(get_target_subnet(&foreign), Ok(1));
}

#[test]
fn exhausted_range_is_an_error() {
    let all: Vec<Ipv4Net> = (1u8..=254).map(block).collect();
    assert_eq!(get_target_subnet(&all), Err(VoponoError::NoFreeSubnet));
    // One gap anywhere is found.
    let mut one_free = all.clone();
    one_free.retain(|n| n.c != 254);
    assert_eq!(get_target_subnet(&one_free), Ok(254));
}

#[test]
fn home_config_path_shape() {
    assert_eq!(home_config_path(&String::from("alice")), "/home/alice/.config");
}

#[test]
fn config_dir_prefers_base_directory() {
    let r = config_dir(
        &Some(String::from("/root/.config")),
        &Some(String::from("alice")),
        &Some(String::from("bob")),
        true,
        true,
    );
    assert_eq!(r, Ok(String::from("/root/.config")));
}

#[test]
fn config_dir_falls_back_to_sudo_user() {
    let r = config_dir(&None, &Some(String::from("alice")), &None, true, false);
    assert_eq!(r, Ok(String::from("/home/alice/.config")));
    // A missing home for the sudo user ends the chain with an error rather
    // than falling through to the uid user.
    let r = config_dir(
        &None,
        &Some(String::from("alice")),
        &Some(String::from("bob")),
        false,
        true,
    );
    assert_eq!(r, Err(VoponoError::QueryFailed));
}

#[test]
fn config_dir_uses_uid_user_last() {
    let r = config_dir(&None, &None, &Some(String::from("bob")), false, true);
    assert_eq!(r, Ok(String::from("/home/bob/.config")));
    let r = config_dir(&None, &None, &Some(String::from("bob")), false, false);
    assert_eq!(r, Err(VoponoError::QueryFailed));
    let r = config_dir(&None, &None, &None, false, false);
    assert_eq!(r, Err(VoponoError::QueryFailed));
}

#[test]
fn username_prefers_sudo_user() {
    assert_eq!(
        get_username(&Some(String::from("alice")), &Some(String::from("bob"))),
        Ok(String::from("alice"))
    );
    assert_eq!(
        get_username(&None, &Some(String::from("bob"))),
        Ok(String::from("bob"))
    );
    assert_eq!(get_username(&None, &None), Err(VoponoError::QueryFailed));
}

#[test]
fn group_falls_back_to_username() {
    assert_eq!(
        get_group(&String::from("alice"), &Some(String::from("wheel"))),
        "wheel"
    );
    assert_eq!(get_group(&String::from("alice"), &None), "alice");
}

#[test]
fn ownership_fix_commands() {
    let (chown, chgrp) = set_config_permissions(
        &String::from("/home/alice/.config"),
        &String::from("alice"),
        &String::from("wheel"),
    );
    assert_eq!(chown, vec!["chown", "-R", "alice", "/home/alice/.config/vopono"]);
    assert_eq!(chgrp, vec!["chgrp", "-R", "wheel", "/home/alice/.config/vopono"]);
}

#[test]
fn elevation_decisions() {
    assert_eq!(elevate_privileges(1000, false), ElevationAction::ReexecWithSudo);
    assert_eq!(elevate_privileges(1000, true), ElevationAction::ReexecWithSudo);
    assert_eq!(elevate_privileges(0, false), ElevationAction::WarnRootDirect);
    assert_eq!(elevate_privileges(0, true), ElevationAction::Proceed);
}
