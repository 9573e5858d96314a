//! Privileges that a process can be checked for.

use crate::text::{push_signed_decimal, signed_decimal};
use vstd::prelude::*;
use vstd::string::StringExecFns;

verus! {

/// Identifier of a privilege.
#[derive(Debug, Clone, Copy, PartialEq, Eq)]
pub struct Privilege(pub i32);

impl Privilege {
    /// Exceeding the system limit on open files.
    pub const MAXFILES: i32 = 3;

    /// Setting the login name.
    pub const PROC_SETLOGIN: i32 = 161;

    /// Overriding the file system access checks.
    pub const VFS_ADMIN: i32 = 312;

    pub const SCE680: i32 = 680;

    pub const SCE683: i32 = 683;

    pub const SCE686: i32 = 686;

    /// The name of the privilege, or its number where it has no name.
    pub open spec fn name(&self) -> Seq<char> {
        if self.0 == Privilege::MAXFILES {
            "PRIV_MAXFILES"@
        } else if self.0 == Privilege::PROC_SETLOGIN {
            "PRIV_PROC_SETLOGIN"@
        } else if self.0 == Privilege::VFS_ADMIN {
            "PRIV_VFS_ADMIN"@
        } else if self.0 == Privilege::SCE680 {
            "SCE680"@
        } else if self.0 == Privilege::SCE683 {
            "SCE683"@
        } else if self.0 == Privilege::SCE686 {
            "SCE686"@
        } else {
            signed_decimal(self.0 as int)
        }
    }

    /// The name of the privilege, or its number where it has no name.
    pub fn to_string(&self) -> (r: String)
        ensures
            r@ == self.name(),
    {
        if self.0 == Privilege::MAXFILES {
            String::from_str("PRIV_MAXFILES")
        } else if self.0 == Privilege::PROC_SETLOGIN {
            String::from_str("PRIV_PROC_SETLOGIN")
        } else if self.0 == Privilege::VFS_ADMIN {
            String::from_str("PRIV_VFS_ADMIN")
        } else if self.0 == Privilege::SCE680 {
            String::from_str("SCE680")
        } else if self.0 == Privilege::SCE683 {
            String::from_str("SCE683")
        } else if self.0 == Privilege::SCE686 {
            String::from_str("SCE686")
        } else {
            let mut text = String::new();
            push_signed_decimal(&mut text, self.0 as i64);
            assert(Seq::<char>::empty() + signed_decimal(self.0 as int) =~= signed_decimal(
                self.0 as int,
            ));
            text
        }
    }
}

} // verus!
