//! User identity, configuration paths and the privilege bootstrap.
//!
//! These functions hold the decisions; the surrounding application supplies
//! what only the OS knows (environment variables, the user database,
//! effective uid, whether a path exists) and carries out the effects
//! (spawning `sudo`, changing ownership, exiting).

use vstd::prelude::*;
use vstd::string::StringExecFns;

use crate::error::VoponoError;

verus! {

/// The per-user configuration directory under a home directory:
/// `/home/<user>/.config`.
pub open spec fn home_config(user: Seq<char>) -> Seq<char> {
    "/home/"@ + user + "/.config"@
}

/// Builds `/home/<user>/.config`.
pub fn home_config_path(user: &String) -> (p: String)
    ensures
        p@ == home_config(user@),
{
    let mut p = String::from_str("/home/");
    p.append(user.as_str());
    p.append("/.config");
    p
}

/// Resolves the configuration directory, preferring the platform base
/// directory, then the home of the `SUDO_USER`, then the home of the
/// current uid's user.  The two home-derived candidates are only accepted
/// when they exist on disk, and a missing home ends the chain with an error
/// rather than falling through.  `sudo_exists` and `uid_exists` report
/// whether `home_config(...)` of the respective user exists.
pub fn config_dir(
    base_config: &Option<String>,
    sudo_user: &Option<String>,
    uid_user: &Option<String>,
    sudo_exists: bool,
    uid_exists: bool,
) -> (r: Result<String, VoponoError>)
    ensures
        base_config is Some ==> r is Ok && r->Ok_0@ == base_config->0@,
        base_config is None && sudo_user is Some && sudo_exists ==> r is Ok && r->Ok_0@
            == home_config(sudo_user->0@),
        base_config is None && sudo_user is Some && !sudo_exists ==> r == Err::<
            String,
            VoponoError,
        >(VoponoError::QueryFailed),
        base_config is None && sudo_user is None && uid_user is Some && uid_exists ==> r is Ok
            && r->Ok_0@ == home_config(uid_user->0@),
        base_config is None && sudo_user is None && uid_user is Some && !uid_exists ==> r == Err::<
            String,
            VoponoError,
        >(VoponoError::QueryFailed),
        base_config is None && sudo_user is None && uid_user is None ==> r == Err::<
            String,
            VoponoError,
        >(VoponoError::QueryFailed),
{
    match base_config {
        Some(b) => Ok(b.clone()),
        None => match sudo_user {
            Some(u) => {
                if sudo_exists {
                    Ok(home_config_path(u))
                } else {
                    Err(VoponoError::QueryFailed)
                }
            },
            None => match uid_user {
                Some(u) => {
                    if uid_exists {
                        Ok(home_config_path(u))
                    } else {
                        Err(VoponoError::QueryFailed)
                    }
                },
                None => Err(VoponoError::QueryFailed),
            },
        },
    }
}

/// Resolves the invoking user's name: the `SUDO_USER` environment value
/// when present, else the user of the current uid, else an error.
pub fn get_username(sudo_user: &Option<String>, uid_user: &Option<String>) -> (r: Result<
    String,
    VoponoError,
>)
    ensures
        sudo_user is Some ==> r is Ok && r->Ok_0@ == sudo_user->0@,
        sudo_user is None && uid_user is Some ==> r is Ok && r->Ok_0@ == uid_user->0@,
        sudo_user is None && uid_user is None ==> r == Err::<String, VoponoError>(
            VoponoError::QueryFailed,
        ),
{
    match sudo_user {
        Some(u) => Ok(u.clone()),
        None => match uid_user {
            Some(u) => Ok(u.clone()),
            None => Err(VoponoError::QueryFailed),
        },
    }
}

/// Resolves the group to give the configuration tree: the primary group of
/// the user when the user database knows one, else the user's own name.
pub fn get_group(username: &String, user_group: &Option<String>) -> (r: String)
    ensures
        user_group is Some ==> r@ == user_group->0@,
        user_group is None ==> r@ == username@,
{
    match user_group {
        Some(g) => g.clone(),
        None => username.clone(),
    }
}

/// The two ownership-fix commands for the configuration tree:
/// `chown -R <user> <dir>/vopono` and `chgrp -R <group> <dir>/vopono`.
pub fn set_config_permissions(config_dir: &String, username: &String, group: &String) -> (cmds: (
    Vec<String>,
    Vec<String>,
))
    ensures
        cmds.0@.len() == 4,
        cmds.0@[0]@ == "chown"@,
        cmds.0@[1]@ == "-R"@,
        cmds.0@[2]@ == username@,
        cmds.0@[3]@ == config_dir@ + "/vopono"@,
        cmds.1@.len() == 4,
        cmds.1@[0]@ == "chgrp"@,
        cmds.1@[1]@ == "-R"@,
        cmds.1@[2]@ == group@,
        cmds.1@[3]@ == config_dir@ + "/vopono"@,
{
    let mut check_dir = config_dir.clone();
    check_dir.append("/vopono");
    let mut chown: Vec<String> = Vec::new();
    chown.push(String::from_str("chown"));
    chown.push(String::from_str("-R"));
    chown.push(username.clone());
    chown.push(check_dir.clone());
    let mut chgrp: Vec<String> = Vec::new();
    chgrp.push(String::from_str("chgrp"));
    chgrp.push(String::from_str("-R"));
    chgrp.push(group.clone());
    chgrp.push(check_dir);
    (chown, chgrp)
}

/// What the privilege bootstrap must do next.
#[derive(Clone, Copy, Debug, PartialEq, Eq, Structural)]
pub enum ElevationAction {
    /// Not privileged: re-invoke the whole program under `sudo -E` with the
    /// original arguments, then exit successfully without further work.
    ReexecWithSudo,
    /// Privileged but not launched through `sudo`: warn that the invoking
    /// user identity is unknown, then go on.
    WarnRootDirect,
    /// Privileged through the expected path: nothing to do.
    Proceed,
}

/// Decides the privilege bootstrap from the effective uid and whether a
/// `SUDO_USER` environment value is present.  An already-elevated run never
/// re-invokes, so the bootstrap cannot recurse.
pub fn elevate_privileges(uid: u32, sudo_user_present: bool) -> (a: ElevationAction)
    ensures
        a == if uid != 0 {
            ElevationAction::ReexecWithSudo
        } else if !sudo_user_present {
            ElevationAction::WarnRootDirect
        } else {
            ElevationAction::Proceed
        },
{
    if uid != 0 {
        ElevationAction::ReexecWithSudo
    } else if !sudo_user_present {
        ElevationAction::WarnRootDirect
    } else {
        ElevationAction::Proceed
    }
}

} // verus!
