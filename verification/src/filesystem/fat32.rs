//! The read-only FAT32 boot-recovery partition.
use vstd::prelude::*;
use crate::text::str_eq;

verus! {

/// The FAT32 partition and its volume label.
pub struct Fat32Simulator {
    pub label: String,
}

/// The partition's files with their sizes.
pub open spec fn fat32_files() -> Seq<(Seq<char>, usize)> {
    seq![("EFI/BOOT/BOOTX64.EFI"@, 45056usize), ("KERNEL.BIN"@, 262144usize), ("SYSTEM.TXT"@, 124usize)]
}

/// The contents of a FAT32 file, if it exists.
pub open spec fn fat32_contents(path: Seq<char>) -> Option<Seq<char>> {
    if path == "SYSTEM.TXT"@ {
        Some("NovaOS FAT32 Boot Recovery Partition\nStatus: OK\nVersion: 0.1.0\n"@)
    } else if path == "EFI/BOOT/BOOTX64.EFI"@ {
        Some("[Binary EFI Payload]"@)
    } else if path == "KERNEL.BIN"@ {
        Some("[Kernel executable payload]"@)
    } else {
        None
    }
}

/// The views of a file list.
pub open spec fn file_list_view(v: Seq<(String, usize)>) -> Seq<(Seq<char>, usize)> {
    v.map_values(|e: (String, usize)| (e.0@, e.1))
}

impl Fat32Simulator {
    /// The partition labelled NOVA_BOOT.
    pub fn new() -> (f: Fat32Simulator)
        ensures
            f.label@ == "NOVA_BOOT"@,
    {
        Fat32Simulator { label: String::from_str("NOVA_BOOT") }
    }

    /// Every file with its size.
    pub fn list_files(&self) -> (r: Vec<(String, usize)>)
        ensures
            file_list_view(r@) == fat32_files(),
    {
        let mut v: Vec<(String, usize)> = Vec::new();
        v.push((String::from_str("EFI/BOOT/BOOTX64.EFI"), 45056));
        v.push((String::from_str("KERNEL.BIN"), 262144));
        v.push((String::from_str("SYSTEM.TXT"), 124));
        assert(file_list_view(v@) =~= fat32_files());
        v
    }

    /// The contents of the file at `path`.
    pub fn read_file(&self, path: &str) -> (r: Result<String, String>)
        ensures
            match fat32_contents(path@) {
                Some(c) => r matches Ok(s) && s@ == c,
                None => r matches Err(e) && e@ == "File not found on FAT32 partition"@,
            },
    {
        if str_eq(path, "SYSTEM.TXT") {
            Ok(String::from_str("NovaOS FAT32 Boot Recovery Partition\nStatus: OK\nVersion: 0.1.0\n"))
        } else if str_eq(path, "EFI/BOOT/BOOTX64.EFI") {
            Ok(String::from_str("[Binary EFI Payload]"))
        } else if str_eq(path, "KERNEL.BIN") {
            Ok(String::from_str("[Kernel executable payload]"))
        } else {
            Err(String::from_str("File not found on FAT32 partition"))
        }
    }
}

} // verus!
