//! Steam users: the accounts found under `userdata`, and their names and
//! avatars read from `localconfig.vdf`.

use crate::text::{str_eq, strs_view};
use crate::utils::string::{valid_integer, StringExt};
use crate::vdf::crud::get_path;
use crate::vdf::value::{Vdf, VdfValue};
use vstd::prelude::*;

verus! {

broadcast use vstd::string::group_string_axioms;

/// A Steam account as `localconfig.vdf` describes it.
#[derive(Debug)]
pub struct SteamUser {
    pub name: String,
    pub id: String,
    pub avatar: String,
    pub config_path: String,
}

impl View for SteamUser {
    /// Name, id, avatar hash, configuration path.
    type V = (Seq<char>, Seq<char>, Seq<char>, Seq<char>);

    open spec fn view(&self) -> (Seq<char>, Seq<char>, Seq<char>, Seq<char>) {
        (self.name@, self.id@, self.avatar@, self.config_path@)
    }
}

/// The avatar Steam shows for a user without one (the question mark).
pub open spec fn default_avatar() -> Seq<char> {
    "fef49e7fa7e1997310d705b2a6158ff8dc1cdfeb"@
}

pub open spec fn name_keys() -> Seq<Seq<char>> {
    seq!["UserLocalConfigStore"@, "friends"@, "PersonaName"@]
}

pub open spec fn avatar_keys(user_id: Seq<char>) -> Seq<Seq<char>> {
    seq!["UserLocalConfigStore"@, "friends"@, user_id, "avatar"@]
}

/// The user that a `localconfig.vdf` tree describes: the persona name is
/// required, the avatar falls back to Steam's default.
pub open spec fn user_of(m: Vdf, user_id: Seq<char>, config_path: Seq<char>) -> Result<(Seq<char>, Seq<char>, Seq<char>, Seq<char>), Seq<char>> {
    match get_path(m, name_keys()) {
        Some(Vdf::Str(name)) => {
            let avatar = match get_path(m, avatar_keys(user_id)) {
                Some(Vdf::Str(a)) => a,
                _ => default_avatar(),
            };
            Ok((name, user_id, avatar, config_path))
        },
        _ => Err("UserLocalConfigStore name not found "@ + user_id),
    }
}

impl SteamUser {
    /// The user described by the tree of `config_path`, whose id is `user_id`.
    pub fn from_vdf(vdf: &VdfValue, user_id: &str, config_path: &str) -> (r: Result<SteamUser, String>)
        ensures
            match user_of(vdf@, user_id@, config_path@) {
                Ok(u) => r is Ok && r.unwrap()@ == u,
                Err(e) => r is Err && r->Err_0@ == e,
            },
    {
        let name_path: Vec<&str> = vec!["UserLocalConfigStore", "friends", "PersonaName"];
        let avatar_path: Vec<&str> = vec!["UserLocalConfigStore", "friends", user_id, "avatar"];
        assert(strs_view(name_path@) =~= name_keys());
        assert(strs_view(avatar_path@) =~= avatar_keys(user_id@));
        let name = vdf.get_value_by_path(name_path.as_slice());
        let avatar = vdf.get_value_by_path(avatar_path.as_slice());
        match name {
            None => {
                let mut m = "UserLocalConfigStore name not found ".to_string();
                crate::text::push_str(&mut m, user_id);
                Err(m)
            },
            Some(n) => {
                let avatar = match avatar {
                    Some(a) => a.to_string(),
                    None => "fef49e7fa7e1997310d705b2a6158ff8dc1cdfeb".to_string(),
                };
                Ok(SteamUser {
                    name: n.to_string(),
                    id: user_id.to_string(),
                    avatar,
                    config_path: config_path.to_string(),
                })
            },
        }
    }
}

/// The ids among `userdata` directories: names that are unsigned integers,
/// kept when the directory holds `config/localconfig.vdf`.
pub open spec fn user_ids_of(dirs: Seq<(Seq<char>, bool)>) -> Seq<Seq<char>>
    decreases dirs.len(),
{
    if dirs.len() == 0 {
        seq![]
    } else {
        let r = user_ids_of(dirs.drop_last());
        let d = dirs.last();
        if valid_integer(d.0, false) && d.1 {
            r.push(d.0)
        } else {
            r
        }
    }
}

/// The Steam user ids among the `userdata` directories, given each
/// directory's name and whether it holds `config/localconfig.vdf`.
pub fn get_steam_users_id(dirs: Vec<(String, bool)>) -> (r: Vec<String>)
    ensures
        r@.map_values(|s: String| s@) == user_ids_of(dirs@.map_values(|d: (String, bool)| (d.0@, d.1))),
{
    let ghost dv = dirs@.map_values(|d: (String, bool)| (d.0@, d.1));
    let mut users: Vec<String> = Vec::new();
    let mut i: usize = 0;
    assert(dv.take(0) =~= Seq::<(Seq<char>, bool)>::empty());
    assert(users@.map_values(|s: String| s@) =~= Seq::<Seq<char>>::empty());
    while i < dirs.len()
        invariant
            i <= dirs@.len(),
            dv == dirs@.map_values(|d: (String, bool)| (d.0@, d.1)),
            users@.map_values(|s: String| s@) == user_ids_of(dv.take(i as int)),
        decreases dirs@.len() - i,
    {
        let (name, has_config) = (&dirs[i].0, dirs[i].1);
        let ghost pre = dv.take(i + 1);
        assert(pre.drop_last() =~= dv.take(i as int));
        assert(pre.last() == (name@, has_config));
        if name.as_str().is_valid_integer(false) && has_config {
            let ghost before = users@;
            users.push(name.clone());
            assert(users@.map_values(|s: String| s@) =~= before.map_values(|s: String| s@).push(name@));
        }
        i = i + 1;
    }
    assert(dv.take(dirs@.len() as int) =~= dv);
    users
}

} // verus!
