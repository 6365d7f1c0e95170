use dispatcher::processo::{Processo, State};
use dispatcher::resources::ResourceManager;

fn process(printer: usize, scanner: bool, modem: bool, drive: usize) -> Processo {
    Processo {
        pid: 1,
        offset: 0,
        init_time: 0,
        priority: 1,
        time: 3,
        blocks: 10,
        printer,
        scanner,
        modem,
        drive,
        instructions: Vec::new(),
        state: State::Ready,
    }
}

fn all_free() -> ResourceManager {
    ResourceManager { scanner: true, printer: [true, true], modem: true, drive: [true, true] }
}

#[test]
fn available_when_all_free() {
    let rm = all_free();
    assert!(rm.resources_available(&process(1, true, true, 1)));
    assert!(rm.resources_available(&process(0, false, false, 0)));
}

#[test]
fn unavailable_when_a_requested_device_is_taken() {
    let mut rm = all_free();
    rm.scanner = false;
    assert!(!rm.resources_available(&process(0, true, false, 0)));
    assert!(rm.resources_available(&process(0, false, true, 0)));
    let mut rm = all_free();
    rm.printer[1] = false;
    assert!(!rm.resources_available(&process(1, false, false, 0)));
    let mut rm = all_free();
    rm.drive[1] = false;
    assert!(!rm.resources_available(&process(0, false, false, 1)));
    let mut rm = all_free();
    rm.modem = false;
    assert!(!rm.resources_available(&process(0, false, true, 0)));
}

#[test]
fn printer_and_drive_zero_mean_none() {
    let mut rm = all_free();
    rm.printer[0] = false;
    rm.drive[0] = false;
    assert!(rm.resources_available(&process(0, false, false, 0)));
}

#[test]
fn alloc_takes_only_requested_devices() {
    let mut rm = all_free();
    let p = process(1, true, false, 0);
    rm.alloc_resources(&p);
    assert!(!rm.scanner);
    assert!(rm.modem);
    assert_eq!(rm.printer, [true, false]);
    assert_eq!(rm.drive, [true, true]);
    assert!(!rm.resources_available(&p));
}

#[test]
fn alloc_then_dealloc_restores() {
    let mut rm = all_free();
    rm.printer[0] = false;
    let p = process(1, true, true, 1);
    rm.alloc_resources(&p);
    assert!(!rm.resources_available(&p));
    rm.dealloc_resources(&p);
    assert!(rm.scanner && rm.modem);
    assert_eq!(rm.printer, [false, true]);
    assert_eq!(rm.drive, [true, true]);
    assert!(rm.resources_available(&p));
}

#[test]
fn process_asking_nothing_stays_available_after_alloc() {
    let mut rm = all_free();
    let p = process(0, false, false, 0);
    rm.alloc_resources(&p);
    assert!(rm.resources_available(&p));
}
