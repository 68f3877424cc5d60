use novaos::drivers::vga::{init_vga, VgaWriter, VGA_WIDTH};
use novaos::kernel::boot::trigger_kernel_panic;

fn row_text(w: &VgaWriter, row: usize) -> String {
    let mut s = String::new();
    for col in 0..VGA_WIDTH {
        s.push(w.buffer[(row * VGA_WIDTH + col) * 2] as char);
    }
    s.trim_end().to_string()
}

#[test]
fn panic_screen_shows_message_and_location() {
    let mut vga = Some(init_vga());
    vga.as_mut().unwrap().write_string("old text");
    trigger_kernel_panic(&mut vga, Some("stack overflow"), Some(("kernel/src/main.rs", 42)));
    let w = vga.unwrap();
    assert_eq!(row_text(&w, 0), "!".repeat(78));
    assert_eq!(row_text(&w, 1), "                          KERNEL PANIC DETECTED (System Halted)");
    assert_eq!(row_text(&w, 2), "!".repeat(78));
    assert_eq!(row_text(&w, 3), "Details: stack overflow");
    assert_eq!(row_text(&w, 4), "Location: file 'kernel/src/main.rs', line 42");
    assert_eq!(row_text(&w, 5), "-".repeat(78));
    assert_eq!(row_text(&w, 6), "[Diagnostic registers dump]");
    assert_eq!(w.color_code.0, 15);
}

#[test]
fn panic_screen_without_message_or_location() {
    let mut vga: Option<VgaWriter> = None;
    trigger_kernel_panic(&mut vga, None, None);
    let w = vga.unwrap();
    assert_eq!(row_text(&w, 3), "Details: Unknown error occurred.");
    assert_eq!(row_text(&w, 4), "-".repeat(78));
}
