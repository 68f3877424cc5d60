//! The read-only EXT2 lab partition.
use vstd::prelude::*;

verus! {

/// The EXT2 partition and its UUID.
pub struct Ext2Simulator {
    pub uuid: String,
}

/// The partition's inodes: number, name and permission bits.
pub open spec fn ext2_inodes() -> Seq<(u32, Seq<char>, u16)> {
    seq![(2u32, "."@, 0o755u16), (11u32, "lost+found"@, 0o700u16), (12u32, "notes.txt"@, 0o644u16), (13u32, "lab_config"@, 0o755u16)]
}

/// The contents of the EXT2 file with inode number `inode`, if it is a regular file.
pub open spec fn ext2_contents(inode: u32) -> Option<Seq<char>> {
    if inode == 12 {
        Some("EXT2 File System notes:\nStandard Linux layout simulation.\nInode 2 is root.\nInode 11 is lost+found.\n"@)
    } else if inode == 13 {
        Some("# Classroom Lab Config\nASSIGNMENT_ID=lab1\nDEADLINE=2026-06-01\n"@)
    } else {
        None
    }
}

/// The views of an inode list.
pub open spec fn inode_list_view(v: Seq<(u32, String, u16)>) -> Seq<(u32, Seq<char>, u16)> {
    v.map_values(|e: (u32, String, u16)| (e.0, e.1@, e.2))
}

impl Ext2Simulator {
    /// The partition with its fixed UUID.
    pub fn new() -> (e: Ext2Simulator)
        ensures
            e.uuid@ == "3b2512f4-7e88-4221-a1b7-e231123ad82d"@,
    {
        Ext2Simulator { uuid: String::from_str("3b2512f4-7e88-4221-a1b7-e231123ad82d") }
    }

    /// Every inode with its name and permission bits.
    pub fn list_inodes(&self) -> (r: Vec<(u32, String, u16)>)
        ensures
            inode_list_view(r@) == ext2_inodes(),
    {
        let mut v: Vec<(u32, String, u16)> = Vec::new();
        v.push((2, String::from_str("."), 0o755));
        v.push((11, String::from_str("lost+found"), 0o700));
        v.push((12, String::from_str("notes.txt"), 0o644));
        v.push((13, String::from_str("lab_config"), 0o755));
        assert(inode_list_view(v@) =~= ext2_inodes());
        v
    }

    /// The contents of the regular file with inode number `inode`.
    pub fn read_file_by_inode(&self, inode: u32) -> (r: Result<String, String>)
        ensures
            match ext2_contents(inode) {
                Some(c) => r matches Ok(s) && s@ == c,
                None => r matches Err(e) && e@ == "Invalid inode or inode is a directory"@,
            },
    {
        if inode == 12 {
            Ok(String::from_str("EXT2 File System notes:\nStandard Linux layout simulation.\nInode 2 is root.\nInode 11 is lost+found.\n"))
        } else if inode == 13 {
            Ok(String::from_str("# Classroom Lab Config\nASSIGNMENT_ID=lab1\nDEADLINE=2026-06-01\n"))
        } else {
            Err(String::from_str("Invalid inode or inode is a directory"))
        }
    }
}

} // verus!
