//! Paths derived from the Steam folder the registry names
//! (`HKCU\Software\Valve\Steam\SteamPath`).

use crate::path::{join_all, path_join_all};
use crate::text::{nat_to_dec, u64_to_string};
use vstd::prelude::*;

verus! {

broadcast use vstd::string::group_string_axioms;

/// `<Steam>\userdata\<user>\config\localconfig.vdf`.
pub open spec fn local_config_path(steam: Seq<char>, user: nat) -> Seq<char> {
    join_all(steam, seq!["userdata"@, nat_to_dec(user), "config"@, "localconfig.vdf"@])
}

fn user_config_path(steam_path: &str, user: u64) -> (r: String)
    ensures
        r@ == local_config_path(steam_path@, user as nat),
{
    let id = u64_to_string(user);
    let parts: Vec<&str> = vec!["userdata", id.as_str(), "config", "localconfig.vdf"];
    proof {
        reveal_strlit("userdata");
        reveal_strlit("config");
        reveal_strlit("localconfig.vdf");
        crate::text::lemma_nat_to_dec_digits(user as nat);
    }
    assert(parts@.map_values(|q: &str| q@) =~= seq!["userdata"@, nat_to_dec(user as nat), "config"@, "localconfig.vdf"@]);
    path_join_all(steam_path, parts.as_slice())
}

/// The `localconfig.vdf` of the active user (the registry's `ActiveUser`
/// DWORD); the caller checks that the file exists.
pub fn get_active_user_steam_local_config_path_by_registry(steam_path: &str, active_user_id: u32) -> (r: String)
    ensures
        r@ == local_config_path(steam_path@, active_user_id as nat),
{
    user_config_path(steam_path, active_user_id as u64)
}

/// The `localconfig.vdf` of a Steam user.
pub fn get_steam_local_config_vdf_path_by_user_id(steam_path: &str, steam_user_id: usize) -> (r: String)
    ensures
        r@ == local_config_path(steam_path@, steam_user_id as nat),
{
    user_config_path(steam_path, steam_user_id as u64)
}

/// `<Steam>\steamapps\libraryfolders.vdf`.
pub open spec fn libraryfolders_path(steam: Seq<char>) -> Seq<char> {
    join_all(steam, seq!["steamapps"@, "libraryfolders.vdf"@])
}

/// Where Steam lists its library folders; the caller checks that it exists.
pub fn get_steam_libraryfolders_config_path_by_registry(steam_path: &str) -> (r: String)
    ensures
        r@ == libraryfolders_path(steam_path@),
{
    let parts: Vec<&str> = vec!["steamapps", "libraryfolders.vdf"];
    proof {
        reveal_strlit("steamapps");
        reveal_strlit("libraryfolders.vdf");
    }
    assert(parts@.map_values(|q: &str| q@) =~= seq!["steamapps"@, "libraryfolders.vdf"@]);
    path_join_all(steam_path, parts.as_slice())
}

} // verus!
