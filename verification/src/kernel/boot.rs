//! Boot-time output: the banner and the physical memory map handed over by the firmware.
use vstd::prelude::*;
use crate::text::{push_str, push_decimal, chars_to_string, decimal};
use crate::kernel::interrupts::{console_println, printed_lines};
use crate::drivers::vga::VgaWriter;

verus! {

/// What a physical memory region is used for.
#[derive(Debug, Clone, Copy, PartialEq, Eq, Structural)]
pub enum MemoryRegionType {
    Usable,
    Reserved,
    UefiCode,
    UefiData,
    AcpiReclaimable,
    FrameBuffer,
}

/// A region of the physical memory map.
#[derive(Debug, Clone, Copy, PartialEq, Eq, Structural)]
pub struct MemoryMapEntry {
    pub start_address: u64,
    pub length: u64,
    pub region_type: MemoryRegionType,
}

/// The machine's physical memory map.
pub open spec fn physical_mem_map_spec() -> Seq<MemoryMapEntry> {
    seq![
        MemoryMapEntry { start_address: 0x000000, length: 0x0A0000, region_type: MemoryRegionType::Usable },
        MemoryMapEntry { start_address: 0x0A0000, length: 0x060000, region_type: MemoryRegionType::Reserved },
        MemoryMapEntry { start_address: 0x100000, length: 0x7E00000, region_type: MemoryRegionType::Usable },
        MemoryMapEntry { start_address: 0x7F00000, length: 0x100000, region_type: MemoryRegionType::UefiCode },
        MemoryMapEntry { start_address: 0x8000000, length: 0x200000, region_type: MemoryRegionType::UefiData },
        MemoryMapEntry { start_address: 0x8200000, length: 0x100000, region_type: MemoryRegionType::AcpiReclaimable },
        MemoryMapEntry { start_address: 0xFD000000, length: 0x1000000, region_type: MemoryRegionType::FrameBuffer },
        MemoryMapEntry { start_address: 0xFE000000, length: 0x2000000, region_type: MemoryRegionType::Reserved },
    ]
}

/// The machine's physical memory map.
pub fn physical_mem_map() -> (r: Vec<MemoryMapEntry>)
    ensures
        r@ == physical_mem_map_spec(),
{
    let mut v: Vec<MemoryMapEntry> = Vec::new();
    v.push(MemoryMapEntry { start_address: 0x000000, length: 0x0A0000, region_type: MemoryRegionType::Usable });
    v.push(MemoryMapEntry { start_address: 0x0A0000, length: 0x060000, region_type: MemoryRegionType::Reserved });
    v.push(MemoryMapEntry { start_address: 0x100000, length: 0x7E00000, region_type: MemoryRegionType::Usable });
    v.push(MemoryMapEntry { start_address: 0x7F00000, length: 0x100000, region_type: MemoryRegionType::UefiCode });
    v.push(MemoryMapEntry { start_address: 0x8000000, length: 0x200000, region_type: MemoryRegionType::UefiData });
    v.push(MemoryMapEntry { start_address: 0x8200000, length: 0x100000, region_type: MemoryRegionType::AcpiReclaimable });
    v.push(MemoryMapEntry { start_address: 0xFD000000, length: 0x1000000, region_type: MemoryRegionType::FrameBuffer });
    v.push(MemoryMapEntry { start_address: 0xFE000000, length: 0x2000000, region_type: MemoryRegionType::Reserved });
    assert(v@ =~= physical_mem_map_spec());
    v
}

/// The banner printed at boot, line by line.
pub open spec fn banner_spec() -> Seq<Seq<char>> {
    seq![
        "======================================================="@,
        "          _   _                 ____       _               _ "@,
        "         | \\ | |               / ___|     | |             | |"@,
        "         |  \\| | _____   ____  \\___ \\  ___| |__   ___   __| |"@,
        "         | . ` |/ _ \\ \\ / / _` |___) |/ __| '_ \\ / _ \\ / _` |"@,
        "         | |\\  | (_) \\ V / (_| |____/| (__| | | | (_) | (_| |"@,
        "         |_| \\_|\\___/ \\_/ \\__,_|____/ \\___|_| |_|\\___/ \\__,_|"@,
        "======================================================="@,
        "                  NovaSchool OS v0.1.0 (x86_64)"@,
        "       Initializing hybrid kernel components securely..."@,
    ]
}

/// The views of a list of string slices.
pub open spec fn strs_view(v: Seq<&'static str>) -> Seq<Seq<char>> {
    v.map_values(|s: &'static str| s@)
}

/// The banner printed at boot.
pub fn boot_banner_lines() -> (r: Vec<&'static str>)
    ensures
        strs_view(r@) == banner_spec(),
{
    let mut v: Vec<&'static str> = Vec::new();
    v.push("=======================================================");
    v.push("          _   _                 ____       _               _ ");
    v.push("         | \\ | |               / ___|     | |             | |");
    v.push("         |  \\| | _____   ____  \\___ \\  ___| |__   ___   __| |");
    v.push("         | . ` |/ _ \\ \\ / / _` |___) |/ __| '_ \\ / _ \\ / _` |");
    v.push("         | |\\  | (_) \\ V / (_| |____/| (__| | | | (_) | (_| |");
    v.push("         |_| \\_|\\___/ \\_/ \\__,_|____/ \\___|_| |_|\\___/ \\__,_|");
    v.push("=======================================================");
    v.push("                  NovaSchool OS v0.1.0 (x86_64)");
    v.push("       Initializing hybrid kernel components securely...");
    assert(strs_view(v@) =~= banner_spec());
    v
}

/// Prints the boot banner on the console.
pub fn print_boot_banner(vga: &mut Option<VgaWriter>)
    requires
        *old(vga) matches Some(w) ==> w.wf(),
    ensures
        *final(vga) matches Some(w) ==> w.wf(),
        printed_lines(*old(vga), *final(vga), banner_spec()),
{
    let lines = boot_banner_lines();
    let ghost lv = strs_view(lines@);
    let mut i: usize = 0;
    assert(lv.subrange(0, 0) =~= Seq::<Seq<char>>::empty());
    while i < lines.len()
        invariant
            lv == strs_view(lines@),
            i <= lines@.len(),
            *vga matches Some(w) ==> w.wf(),
            printed_lines(*old(vga), *vga, lv.subrange(0, i as int)),
        decreases lines@.len() - i,
    {
        assert(lv[i as int] == lines@[i as int]@);
        let ghost v0 = *vga;
        console_println(vga, lines[i]);
        proof {
            let l = lv[i as int];
            assert(seq![l].drop_last() =~= Seq::<Seq<char>>::empty());
            if let Some(w0) = v0 {
                assert(crate::kernel::interrupts::print_lines_screen(w0.screen(), w0.color_code.0, Seq::<Seq<char>>::empty()) == w0.screen());
            }
            assert(lv.subrange(0, i + 1).drop_last() =~= lv.subrange(0, i as int));
            assert(lv.subrange(0, i + 1).last() == l);
        }
        i = i + 1;
    }
    assert(lv.subrange(0, lines@.len() as int) =~= lv);
}

/// The name a region type is shown under.
pub open spec fn region_name(t: MemoryRegionType) -> Seq<char> {
    match t {
        MemoryRegionType::Usable => "Usable"@,
        MemoryRegionType::Reserved => "Reserved"@,
        MemoryRegionType::UefiCode => "UefiCode"@,
        MemoryRegionType::UefiData => "UefiData"@,
        MemoryRegionType::AcpiReclaimable => "AcpiReclaimable"@,
        MemoryRegionType::FrameBuffer => "FrameBuffer"@,
    }
}

/// The name a region type is shown under.
fn region_str(t: MemoryRegionType) -> (r: &'static str)
    ensures
        r@ == region_name(t),
{
    match t {
        MemoryRegionType::Usable => "Usable",
        MemoryRegionType::Reserved => "Reserved",
        MemoryRegionType::UefiCode => "UefiCode",
        MemoryRegionType::UefiData => "UefiData",
        MemoryRegionType::AcpiReclaimable => "AcpiReclaimable",
        MemoryRegionType::FrameBuffer => "FrameBuffer",
    }
}

/// The upper-case hexadecimal digit for `d < 16`.
pub open spec fn hex_digit(d: nat) -> char {
    if d < 10 { crate::text::digit_char(d) }
    else if d == 10 { 'A' } else if d == 11 { 'B' } else if d == 12 { 'C' }
    else if d == 13 { 'D' } else if d == 14 { 'E' } else { 'F' }
}

/// `n` in upper-case hexadecimal as exactly `w` digits (the low `w` digits).
pub open spec fn hex_fixed(n: nat, w: nat) -> Seq<char>
    decreases w,
{
    if w == 0 { Seq::empty() } else { hex_fixed(n / 16, (w - 1) as nat).push(hex_digit(n % 16)) }
}

/// Appends `n` as exactly `w` upper-case hexadecimal digits.
fn push_hex_fixed(out: &mut Vec<char>, n: u64, w: u32)
    ensures
        final(out)@ == old(out)@ + hex_fixed(n as nat, w as nat),
    decreases w,
{
    if w == 0 {
        assert(hex_fixed(n as nat, 0) =~= Seq::<char>::empty());
        assert(out@ =~= old(out)@ + hex_fixed(n as nat, 0));
        return;
    }
    push_hex_fixed(out, n / 16, w - 1);
    let d = n % 16;
    let c = if d < 10 { crate::text::digit(d) } else if d == 10 { 'A' } else if d == 11 { 'B' }
        else if d == 12 { 'C' } else if d == 13 { 'D' } else if d == 14 { 'E' } else { 'F' };
    out.push(c);
    assert(out@ =~= old(out)@ + hex_fixed(n as nat, w as nat));
}

/// The line shown for region `i` of the memory map.
pub open spec fn region_line(i: nat, e: MemoryMapEntry) -> Seq<char> {
    "  ["@ + decimal(i) + "] 0x"@ + hex_fixed(e.start_address as nat, 8) + " - 0x"@
        + hex_fixed((e.start_address + e.length - 1) as nat, 8) + " | "@ + region_name(e.region_type)
        + " ("@ + decimal(e.length as nat / 1024) + " KB)"@
}

/// The memory-map report: a heading and one line per region.
pub fn uefi_memory_map_lines() -> (r: Vec<String>)
    ensures
        r@.len() == 9,
        r@[0]@ == "[UEFI Bootloader] Physical Memory Map parsed:"@,
        forall|i: int| 0 <= i < 8 ==> #[trigger] r@[i + 1]@ == region_line(i as nat, physical_mem_map_spec()[i]),
{
    let map = physical_mem_map();
    let mut r: Vec<String> = Vec::new();
    r.push(String::from_str("[UEFI Bootloader] Physical Memory Map parsed:"));
    let mut i: usize = 0;
    while i < map.len()
        invariant
            map@ == physical_mem_map_spec(),
            i <= map@.len(),
            r@.len() == i + 1,
            r@[0]@ == "[UEFI Bootloader] Physical Memory Map parsed:"@,
            forall|k: int| 0 <= k < i ==> #[trigger] r@[k + 1]@ == region_line(k as nat, physical_mem_map_spec()[k]),
        decreases map@.len() - i,
    {
        let e = map[i];
        assert(e.start_address + e.length - 1 <= u64::MAX) by {
            assert(physical_mem_map_spec()[i as int].start_address + physical_mem_map_spec()[i as int].length <= 0x100000000);
        }
        let mut line: Vec<char> = Vec::new();
        push_str(&mut line, "  [");
        push_decimal(&mut line, i as u64);
        push_str(&mut line, "] 0x");
        push_hex_fixed(&mut line, e.start_address, 8);
        push_str(&mut line, " - 0x");
        push_hex_fixed(&mut line, e.start_address + e.length - 1, 8);
        push_str(&mut line, " | ");
        push_str(&mut line, region_str(e.region_type));
        push_str(&mut line, " (");
        push_decimal(&mut line, e.length / 1024);
        push_str(&mut line, " KB)");
        r.push(chars_to_string(line.as_slice()));
        i = i + 1;
    }
    r
}

/// The memory-map report, line by line.
pub open spec fn memory_map_report() -> Seq<Seq<char>> {
    Seq::new(9, |i: int| if i == 0 { "[UEFI Bootloader] Physical Memory Map parsed:"@ }
        else { region_line((i - 1) as nat, physical_mem_map_spec()[i - 1]) })
}

/// Prints the memory-map report on the console.
pub fn print_uefi_memory_map(vga: &mut Option<VgaWriter>)
    requires
        *old(vga) matches Some(w) ==> w.wf(),
    ensures
        *final(vga) matches Some(w) ==> w.wf(),
        printed_lines(*old(vga), *final(vga), memory_map_report()),
{
    let lines = uefi_memory_map_lines();
    let ghost lv = lines@.map_values(|s: String| s@);
    assert(lv =~= memory_map_report()) by {
        assert forall|k: int| 0 <= k < 9 implies lv[k] == memory_map_report()[k] by {
            if k > 0 { assert(lines@[(k - 1) + 1]@ == region_line((k - 1) as nat, physical_mem_map_spec()[k - 1])); }
        }
    }
    let mut i: usize = 0;
    assert(lv.subrange(0, 0) =~= Seq::<Seq<char>>::empty());
    while i < lines.len()
        invariant
            lv == lines@.map_values(|s: String| s@),
            i <= lines@.len(),
            *vga matches Some(w) ==> w.wf(),
            printed_lines(*old(vga), *vga, lv.subrange(0, i as int)),
        decreases lines@.len() - i,
    {
        assert(lv[i as int] == lines@[i as int]@);
        let ghost v0 = *vga;
        console_println(vga, lines[i].as_str());
        proof {
            let l = lv[i as int];
            assert(seq![l].drop_last() =~= Seq::<Seq<char>>::empty());
            if let Some(w0) = v0 {
                assert(crate::kernel::interrupts::print_lines_screen(w0.screen(), w0.color_code.0, Seq::<Seq<char>>::empty()) == w0.screen());
            }
            assert(lv.subrange(0, i + 1).drop_last() =~= lv.subrange(0, i as int));
            assert(lv.subrange(0, i + 1).last() == l);
        }
        i = i + 1;
    }
    assert(lv.subrange(0, lines@.len() as int) =~= lv);
}


/// The crash screen: a header, the panic's message (or that it is unknown), where it was
/// raised when that is known, and a register dump for the students to study.
pub open spec fn panic_lines(details: Option<Seq<char>>, location: Option<(Seq<char>, u32)>) -> Seq<Seq<char>> {
    let head = seq![
        "!!!!!!!!!!!!!!!!!!!!!!!!!!!!!!!!!!!!!!!!!!!!!!!!!!!!!!!!!!!!!!!!!!!!!!!!!!!!!!"@,
        "                          KERNEL PANIC DETECTED (System Halted)               "@,
        "!!!!!!!!!!!!!!!!!!!!!!!!!!!!!!!!!!!!!!!!!!!!!!!!!!!!!!!!!!!!!!!!!!!!!!!!!!!!!!"@,
        match details {
            Some(d) => "Details: "@ + d,
            None => "Details: Unknown error occurred."@,
        }
    ];
    let loc = match location {
        Some((file, line)) => seq!["Location: file '"@ + file + "', line "@ + decimal(line as nat)],
        None => Seq::empty(),
    };
    head + loc + seq![
        "------------------------------------------------------------------------------"@,
        "[Diagnostic registers dump]"@,
        "CR0: 0x80010033    CR2: 0x00007FF800    CR3: 0x0000000000101000    CR4: 0x00000000000006F8"@,
        "RIP: 0x000000000020108A   RSP: 0x0000000000400F30   RFLAGS: 0x0000000000010202"@,
        "RAX: 0x0000000000000000   RBX: 0x00000000002030E0   RCX: 0x0000000000000045"@,
        "------------------------------------------------------------------------------"@,
        "This crash screen is part of NovaSchool OS interactive labs. Students should"@,
        "analyze CR2 (Page Fault Linear Address) and RIP to trace memory safety issues."@
    ]
}

/// The lines of the crash screen.
fn panic_screen_lines(details: Option<&str>, location: Option<(&str, u32)>) -> (r: Vec<String>)
    ensures
        r@.map_values(|s: String| s@) == panic_lines(
            match details { Some(d) => Some(d@), None => None },
            match location { Some((f, l)) => Some((f@, l)), None => None }),
{
    let mut v: Vec<String> = Vec::new();
    v.push(String::from_str("!!!!!!!!!!!!!!!!!!!!!!!!!!!!!!!!!!!!!!!!!!!!!!!!!!!!!!!!!!!!!!!!!!!!!!!!!!!!!!"));
    v.push(String::from_str("                          KERNEL PANIC DETECTED (System Halted)               "));
    v.push(String::from_str("!!!!!!!!!!!!!!!!!!!!!!!!!!!!!!!!!!!!!!!!!!!!!!!!!!!!!!!!!!!!!!!!!!!!!!!!!!!!!!"));
    let mut d: Vec<char> = Vec::new();
    match details {
        Some(text) => {
            push_str(&mut d, "Details: ");
            push_str(&mut d, text);
        },
        None => push_str(&mut d, "Details: Unknown error occurred."),
    }
    v.push(chars_to_string(d.as_slice()));
    match location {
        Some((file, line)) => {
            let mut l: Vec<char> = Vec::new();
            push_str(&mut l, "Location: file '");
            push_str(&mut l, file);
            push_str(&mut l, "', line ");
            push_decimal(&mut l, line as u64);
            v.push(chars_to_string(l.as_slice()));
        },
        None => {},
    }
    v.push(String::from_str("------------------------------------------------------------------------------"));
    v.push(String::from_str("[Diagnostic registers dump]"));
    v.push(String::from_str("CR0: 0x80010033    CR2: 0x00007FF800    CR3: 0x0000000000101000    CR4: 0x00000000000006F8"));
    v.push(String::from_str("RIP: 0x000000000020108A   RSP: 0x0000000000400F30   RFLAGS: 0x0000000000010202"));
    v.push(String::from_str("RAX: 0x0000000000000000   RBX: 0x00000000002030E0   RCX: 0x0000000000000045"));
    v.push(String::from_str("------------------------------------------------------------------------------"));
    v.push(String::from_str("This crash screen is part of NovaSchool OS interactive labs. Students should"));
    v.push(String::from_str("analyze CR2 (Page Fault Linear Address) and RIP to trace memory safety issues."));
    proof {
        let dv = match details { Some(x) => Some(x@), None => None::<Seq<char>> };
        let lv = match location { Some((f, n)) => Some((f@, n)), None => None::<(Seq<char>, u32)> };
        assert(v@.map_values(|s: String| s@) =~= panic_lines(dv, lv));
    }
    v
}

/// Prints each of `lines` on a line of its own.
fn print_text_lines(vga: &mut Option<VgaWriter>, lines: &Vec<String>)
    requires
        *old(vga) matches Some(w) ==> w.wf(),
    ensures
        *final(vga) matches Some(w) ==> w.wf(),
        printed_lines(*old(vga), *final(vga), lines@.map_values(|s: String| s@)),
{
    let ghost lv = lines@.map_values(|s: String| s@);
    let mut i: usize = 0;
    assert(lv.subrange(0, 0) =~= Seq::<Seq<char>>::empty());
    while i < lines.len()
        invariant
            lv == lines@.map_values(|s: String| s@),
            i <= lines@.len(),
            *vga matches Some(w) ==> w.wf(),
            printed_lines(*old(vga), *vga, lv.subrange(0, i as int)),
        decreases lines@.len() - i,
    {
        assert(lv[i as int] == lines@[i as int]@);
        let ghost v0 = *vga;
        console_println(vga, lines[i].as_str());
        proof {
            let l = lv[i as int];
            assert(seq![l].drop_last() =~= Seq::<Seq<char>>::empty());
            if let Some(w0) = v0 {
                assert(crate::kernel::interrupts::print_lines_screen(w0.screen(), w0.color_code.0, Seq::<Seq<char>>::empty()) == w0.screen());
            }
            assert(lv.subrange(0, i + 1).drop_last() =~= lv.subrange(0, i as int));
            assert(lv.subrange(0, i + 1).last() == l);
        }
        i = i + 1;
    }
    assert(lv.subrange(0, lines@.len() as int) =~= lv);
}

/// The crash screen of a kernel panic: the console is started afresh (white on black) and
/// the panic's message `details` (unknown when `None`) and the place it was raised are shown
/// between a header and a register dump.
pub fn trigger_kernel_panic(vga: &mut Option<VgaWriter>, details: Option<&str>, location: Option<(&str, u32)>)
    ensures
        *final(vga) matches Some(w) && w.wf() && w.color_code.0 == 15
            && w.screen() == crate::kernel::interrupts::print_lines_screen(
                crate::drivers::vga::Screen { buf: crate::drivers::vga::blank_screen(15), row: 0, col: 0 }, 15,
                panic_lines(
                    match details { Some(d) => Some(d@), None => None },
                    match location { Some((f, l)) => Some((f@, l)), None => None })),
{
    *vga = Some(crate::drivers::vga::init_vga());
    let lines = panic_screen_lines(details, location);
    print_text_lines(vga, &lines);
}

} // verus!
