//! The checks before system files are written, and what is written to them.
use vstd::prelude::*;
use crate::text::{concat, str_eq, str_to_string};

verus! {

/// The user the program runs as must be `root`.
pub open spec fn root_check(user: Option<Seq<char>>) -> Result<(), Seq<char>> {
    match user {
        Some(u) => if u == "root"@ {
            Ok(())
        } else {
            Err("This program must be run as root. Use sudo."@)
        },
        None => Err("Could not determine current user"@),
    }
}

/// Whether the current user (`None` when it cannot be told) is `root`, with
/// the message to show when not.
pub fn check_root(user: Option<&str>) -> (r: Result<(), String>)
    ensures
        match r {
            Ok(()) => root_check(crate::dotfiles::opt_str_view(user)) == Ok::<(), Seq<char>>(()),
            Err(m) => root_check(crate::dotfiles::opt_str_view(user)) == Err::<(), Seq<char>>(m@),
        },
{
    match user {
        Some(u) => if str_eq(u, "root") {
            Ok(())
        } else {
            Err(str_to_string("This program must be run as root. Use sudo."))
        },
        None => Err(str_to_string("Could not determine current user")),
    }
}

/// The text written to `/etc/hostname`: the name and a line break. Refused
/// without root, or for an empty name.
pub fn hostname(name: &str, is_root: bool) -> (r: Result<String, String>)
    ensures
        !is_root ==> (r matches Err(m) && m@ == "Run with sudo"@),
        is_root && name@.len() == 0 ==> (r matches Err(m) && m@ == "Hostname cannot be emty"@),
        is_root && name@.len() > 0 ==> (r matches Ok(t) && t@ == name@ + "\n"@),
{
    if !is_root {
        return Err(str_to_string("Run with sudo"));
    }
    if name.unicode_len() == 0 {
        return Err(str_to_string("Hostname cannot be emty"));
    }
    Ok(concat(name, "\n"))
}

/// The rule written to the sudoers drop-in: the rule and a line break.
/// Refused without root, or for an empty rule.
pub fn sudoers(rule: &str, is_root: bool) -> (r: Result<String, String>)
    ensures
        !is_root ==> (r matches Err(m) && m@ == "Run with sudo"@),
        is_root && rule@.len() == 0 ==> (r matches Err(m) && m@ == "sudoers cannot be emty"@),
        is_root && rule@.len() > 0 ==> (r matches Ok(t) && t@ == rule@ + "\n"@),
{
    if !is_root {
        return Err(str_to_string("Run with sudo"));
    }
    if rule.unicode_len() == 0 {
        return Err(str_to_string("sudoers cannot be emty"));
    }
    Ok(concat(rule, "\n"))
}

/// The message when `visudo` rejects a rule.
pub fn invalid_sudoers_message(rule: &str) -> (r: String)
    ensures
        r@ == "Invalid sudoers syntax: '"@ + rule@ + "'"@,
{
    let a = concat("Invalid sudoers syntax: '", rule);
    concat(a.as_str(), "'")
}

/// The zone file that `/etc/localtime` is to link to. Refused without root, or
/// for an empty zone name.
pub fn set_timezone(timezone: &str, is_root: bool) -> (r: Result<String, String>)
    ensures
        !is_root ==> (r matches Err(m) && m@ == "Root privileges required. Run with sudo."@),
        is_root && timezone@.len() == 0 ==> (r matches Err(m) && m@ == "Timezone cannot be empty"@),
        is_root && timezone@.len() > 0 ==> (r matches Ok(p) && p@ == "/usr/share/zoneinfo/"@
            + timezone@),
{
    if !is_root {
        return Err(str_to_string("Root privileges required. Run with sudo."));
    }
    if timezone.unicode_len() == 0 {
        return Err(str_to_string("Timezone cannot be empty"));
    }
    Ok(concat("/usr/share/zoneinfo/", timezone))
}

/// The message when the zone file does not exist.
pub fn unknown_timezone_message(timezone: &str) -> (r: String)
    ensures
        r@ == "Timezone '"@ + timezone@ + "' not found in /usr/share/zoneinfo/"@,
{
    let a = concat("Timezone '", timezone);
    concat(a.as_str(), "' not found in /usr/share/zoneinfo/")
}

} // verus!
