use vstd::prelude::*;

verus! {

/// What a page-fault error code says.
#[derive(Debug, Clone, Copy, PartialEq, Eq, Structural)]
pub struct PageFaultInfo {
    /// The access came from ring 3 (bit 2).
    pub user: bool,
    /// The access was a write (bit 1).
    pub write: bool,
    /// The page was present: a protection violation (bit 0).
    pub protection: bool,
}

impl PageFaultInfo {
    pub fn decode(error_code: u32) -> (i: PageFaultInfo)
        ensures
            i.user == (error_code & 0x4 != 0),
            i.write == (error_code & 0x2 != 0),
            i.protection == (error_code & 0x1 != 0),
    {
        PageFaultInfo {
            user: (error_code & 0x4) != 0,
            write: (error_code & 0x2) != 0,
            protection: (error_code & 0x1) != 0,
        }
    }

    pub fn kind_label(&self) -> (r: &'static str)
        ensures
            r == (if self.protection {
                "protection"
            } else {
                "not-present"
            }),
    {
        if self.protection {
            "protection"
        } else {
            "not-present"
        }
    }

    pub fn access_label(&self) -> (r: &'static str)
        ensures
            r == (if self.write {
                "write"
            } else {
                "read"
            }),
    {
        if self.write {
            "write"
        } else {
            "read"
        }
    }
}

} // verus!
