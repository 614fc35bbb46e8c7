use devicemapper::loopbacked::{
    backing_file_name, block_devno, Action, Binding, Bytes, Provisioner, Sectors, MIB,
};

#[test]
fn bytes_to_sectors() {
    assert_eq!(Bytes(MIB).sectors(), Sectors(2048));
    assert_eq!(Bytes(511).sectors(), Sectors(0));
    assert_eq!(Bytes(1025).sectors(), Sectors(2));
}

#[test]
fn sectors_to_bytes() {
    assert_eq!(Sectors(3).bytes(), Some(Bytes(1536)));
    assert_eq!(Sectors(0).bytes(), Some(Bytes(0)));
    assert_eq!(Sectors(u64::MAX).bytes(), None);
    assert_eq!(Sectors(u64::MAX / 512).bytes(), Some(Bytes((u64::MAX / 512) * 512)));
}

#[test]
fn backing_file_names() {
    assert_eq!(backing_file_name(0), "store0");
    assert_eq!(backing_file_name(7), "store7");
    assert_eq!(backing_file_name(255), "store255");
}

#[test]
fn block_device_recognised() {
    assert_eq!(block_devno(0o060660, 0x801), Some(0x801));
    assert_eq!(block_devno(0o020666, 0x103), None);
    assert_eq!(block_devno(0o100644, 0), None);
    assert_eq!(block_devno(0o040755, 5), None);
}

#[test]
fn detach_twice_is_a_no_op() {
    let mut b = Binding::new();
    assert!(b.is_attached());
    assert!(b.release());
    assert!(!b.is_attached());
    assert!(!b.release());
    assert!(!b.is_attached());
}

fn drive(p: &mut Provisioner, outcomes: &[bool]) -> Vec<Action> {
    let mut actions = vec![p.action()];
    for &ok in outcomes {
        p.advance(ok);
        actions.push(p.action());
    }
    actions
}

#[test]
fn provisioning_two_devices_in_order() {
    let mut p = Provisioner::new(2);
    let actions = drive(&mut p, &[true; 6]);
    assert_eq!(
        actions,
        vec![
            Action::Prepare(0),
            Action::Attach(0),
            Action::Wipe(0),
            Action::Prepare(1),
            Action::Attach(1),
            Action::Wipe(1),
            Action::Done,
        ]
    );
    assert!(p.is_finished());
}

#[test]
fn provisioning_nothing_is_done_at_once() {
    let p = Provisioner::new(0);
    assert_eq!(p.action(), Action::Done);
    assert!(p.is_finished());
}

#[test]
fn failure_on_third_device_unbinds_first_two() {
    let mut p = Provisioner::new(3);
    let outcomes = [true, true, true, true, true, true, true, false, true, false];
    let actions = drive(&mut p, &outcomes);
    assert_eq!(
        actions,
        vec![
            Action::Prepare(0),
            Action::Attach(0),
            Action::Wipe(0),
            Action::Prepare(1),
            Action::Attach(1),
            Action::Wipe(1),
            Action::Prepare(2),
            Action::Attach(2),
            Action::Detach(1),
            Action::Detach(0),
            Action::Fail,
        ]
    );
    p.advance(true);
    assert_eq!(p.action(), Action::Fail);
}

#[test]
fn failed_wipe_unbinds_that_device_too() {
    let mut p = Provisioner::new(1);
    let actions = drive(&mut p, &[true, true, false, true]);
    assert_eq!(
        actions,
        vec![Action::Prepare(0), Action::Attach(0), Action::Wipe(0), Action::Detach(0), Action::Fail]
    );
}
