//! Resolution of the active trash root: the home trash from explicit
//! environment-derived configuration, and the per-volume trash in its shared
//! or per-user form.

use vstd::prelude::*;
use crate::strutil::dec_digits;
use crate::strutil::u64_to_dec;

verus! {

/// Why no trash root could be resolved.
#[derive(Clone, Copy, Debug, PartialEq, Eq, Structural)]
pub enum LocatorError {
    /// Neither the data-home override nor the home directory is known.
    HomeUnresolvable,
}

/// The trash root under an explicitly supplied data-home directory, or an
/// error when the override is absent or empty. `xdg_data_home` is the value
/// of the data-home override variable, if the environment sets one.
pub fn home_trash_dir_path_from_env(xdg_data_home: Option<&str>) -> (r: Result<
    String,
    LocatorError,
>)
    ensures
        match xdg_data_home {
            Some(dir) if dir@.len() > 0 => r matches Ok(p) && p@ == dir@ + "/Trash"@,
            _ => r == Err::<String, LocatorError>(LocatorError::HomeUnresolvable),
        },
{
    match xdg_data_home {
        Some(dir) => {
            if dir.unicode_len() > 0 {
                let mut p = String::from_str(dir);
                p.append("/Trash");
                Ok(p)
            } else {
                Err(LocatorError::HomeUnresolvable)
            }
        },
        None => Err(LocatorError::HomeUnresolvable),
    }
}

/// The home trash root. Precedence: a set and nonempty data-home override
/// wins; otherwise the trash root lives under the home directory; when
/// neither is known the root is unresolvable — no path is fabricated from
/// partial information.
pub fn home_trash_dir_path(xdg_data_home: Option<&str>, home_dir: Option<&str>) -> (r: Result<
    String,
    LocatorError,
>)
    ensures
        match xdg_data_home {
            Some(dir) if dir@.len() > 0 => r matches Ok(p) && p@ == dir@ + "/Trash"@,
            _ => match home_dir {
                Some(home) => r matches Ok(p) && p@ == home@ + "/.local/share/Trash"@,
                None => r == Err::<String, LocatorError>(LocatorError::HomeUnresolvable),
            },
        },
{
    match home_trash_dir_path_from_env(xdg_data_home) {
        Ok(p) => Ok(p),
        Err(_) => match home_dir {
            Some(home) => {
                let mut p = String::from_str(home);
                p.append("/.local/share/Trash");
                Ok(p)
            },
            None => Err(LocatorError::HomeUnresolvable),
        },
    }
}

/// The shared-form trash root inside a volume: `<volume>/.Trash/<uid>`.
pub fn volume_trash_dir_1(volume: &str, uid: u32) -> (r: String)
    ensures
        r@ == volume@ + "/.Trash/"@ + dec_digits(uid as nat),
{
    let mut p = String::from_str(volume);
    p.append("/.Trash/");
    p.append(u64_to_dec(uid as u64).as_str());
    p
}

/// The per-user-form trash root inside a volume: `<volume>/.Trash-<uid>`.
pub fn volume_trash_dir_2(volume: &str, uid: u32) -> (r: String)
    ensures
        r@ == volume@ + "/.Trash-"@ + dec_digits(uid as nat),
{
    let mut p = String::from_str(volume);
    p.append("/.Trash-");
    p.append(u64_to_dec(uid as u64).as_str());
    p
}

/// Whether the shared-form trash directory of a volume may be used: it must
/// exist, must not be a symbolic link, and must carry the sticky bit. The
/// three flags are the outcome of probing that directory.
pub fn shared_volume_trash_usable(exists: bool, is_symlink: bool, sticky: bool) -> (r: bool)
    ensures
        r == (exists && !is_symlink && sticky),
{
    exists && !is_symlink && sticky
}

/// The trash root to use inside a volume: the shared form when the probe of
/// `<volume>/.Trash` found it trustworthy, else the per-user form, which is
/// created on demand. An explicit two-step decision: probe first, fall back
/// second.
pub fn resolve_volume_trash(volume: &str, uid: u32, shared_exists: bool, shared_is_symlink: bool, shared_sticky: bool) -> (r: String)
    ensures
        shared_exists && !shared_is_symlink && shared_sticky ==> r@ == volume@ + "/.Trash/"@
            + dec_digits(uid as nat),
        !(shared_exists && !shared_is_symlink && shared_sticky) ==> r@ == volume@ + "/.Trash-"@
            + dec_digits(uid as nat),
{
    if shared_volume_trash_usable(shared_exists, shared_is_symlink, shared_sticky) {
        volume_trash_dir_1(volume, uid)
    } else {
        volume_trash_dir_2(volume, uid)
    }
}

} // verus!
