use vstd::prelude::*;
use vstd::string::StringExecFns;
use crate::host_path::Prefix;
use crate::text::push_char;

verus! {

pub open spec fn is_ascii_letter(c: char) -> bool {
    ('a' <= c && c <= 'z') || ('A' <= c && c <= 'Z')
}

/// The lower-case form of an ASCII letter; any other character is kept.
pub open spec fn ascii_lower(c: char) -> char {
    if 'A' <= c && c <= 'Z' {
        ((c as u8) + 32) as u8 as char
    } else {
        c
    }
}

/// The mount point under which a drive is exposed on the POSIX side.
pub open spec fn mount_prefix(drive: Seq<char>) -> Seq<char> {
    seq!['/', 'm', 'n', 't', '/'] + drive
}

/// The drive letter that a prefix names, in lower case.
pub open spec fn drive_of(p: Prefix) -> Option<char> {
    match p {
        Prefix::Disk(d) => Some(ascii_lower(d)),
        Prefix::VerbatimDisk(d) => Some(ascii_lower(d)),
        _ => None,
    }
}

pub fn to_ascii_lower(c: char) -> (r: char)
    ensures
        r == ascii_lower(c),
{
    if 'A' <= c && c <= 'Z' {
        ((c as u8) + 32) as char
    } else {
        c
    }
}

/// The lower-case drive letter of a disk prefix (`C:` or `\\?\C:`); `None`
/// for the other prefix forms, which name no drive.
pub fn get_drive_letter(pc: &Prefix) -> (r: Option<String>)
    ensures
        match drive_of(*pc) {
            Some(d) => r matches Some(s) && s@ == seq![d],
            None => r is None,
        },
{
    match pc {
        Prefix::Disk(d) | Prefix::VerbatimDisk(d) => {
            let mut s = String::new();
            push_char(&mut s, to_ascii_lower(*d));
            Some(s)
        },
        _ => None,
    }
}

/// The POSIX-side mount prefix of a drive: `/mnt/<drive>`.
pub fn get_prefix_for_drive(drive: &str) -> (r: String)
    ensures
        r@ == mount_prefix(drive@),
{
    proof {
        reveal_strlit("/mnt/");
    }
    let mut s = String::from_str("/mnt/");
    s.append(drive);
    s
}

} // verus!
