use copy_modules_closure::closure::closure;
use copy_modules_closure::materialize::{
    firmware_copy_action, firmware_names, mod_path, plan_module, starts_with_name_echo,
    CopyOutcome, FirmwareAction, LocationError, ModPath,
};
use copy_modules_closure::modinfo::{
    field_name, query_args, query_outcome, KernelData, QueryField, QueryOutcome,
};

fn b(s: &str) -> Vec<u8> {
    s.as_bytes().to_vec()
}

fn bs(v: &[&str]) -> Vec<Vec<u8>> {
    v.iter().map(|s| b(s)).collect()
}

#[test]
fn location_builtin() {
    assert!(matches!(mod_path(&bs(&["(builtin)"])), Ok(ModPath::Builtin)));
}

#[test]
fn location_path() {
    match mod_path(&bs(&["/lib/modules/6.1/kernel/fs/ext4.ko"])) {
        Ok(ModPath::Path(p)) => assert_eq!(p, b("/lib/modules/6.1/kernel/fs/ext4.ko")),
        _ => panic!("expected a path"),
    }
}

#[test]
fn location_not_one_line() {
    assert!(matches!(mod_path(&Vec::new()), Err(LocationError::NotOneLine)));
    assert!(matches!(mod_path(&bs(&["a", "b"])), Err(LocationError::NotOneLine)));
}

#[test]
fn firmware_name_echo_filtered() {
    assert_eq!(
        firmware_names(&bs(&["name:           unix", "iwlwifi.ucode", "x/name:y"])),
        bs(&["iwlwifi.ucode", "x/name:y"])
    );
    assert!(starts_with_name_echo(b"name:"));
    assert!(!starts_with_name_echo(b"name"));
    assert!(!starts_with_name_echo(b"nam:e"));
}

#[test]
fn builtin_module_copies_no_file_but_keeps_firmware() {
    let plan = plan_module(&Some(bs(&["(builtin)"])), &Some(bs(&["name: unix", "fw.bin"]))).unwrap();
    assert!(plan.copy_from.is_none());
    assert_eq!(plan.firmware, bs(&["fw.bin"]));
}

#[test]
fn plan_with_missing_answers() {
    let plan = plan_module(&None, &None).unwrap();
    assert!(plan.copy_from.is_none());
    assert!(plan.firmware.is_empty());
    assert!(matches!(plan_module(&Some(vec![]), &None), Err(LocationError::NotOneLine)));
}

#[test]
fn missing_firmware_only_warns() {
    assert_eq!(firmware_copy_action(CopyOutcome::NotFound), FirmwareAction::WarnMissing);
    assert_eq!(firmware_copy_action(CopyOutcome::Copied), FirmwareAction::Continue);
    assert_eq!(firmware_copy_action(CopyOutcome::Failed), FirmwareAction::Abort);
}

#[test]
fn query_outcomes() {
    match query_outcome(true, b"a\n\nb\n", false) {
        QueryOutcome::Lines(ls) => assert_eq!(ls, bs(&["a", "b"])),
        _ => panic!("expected lines"),
    }
    match query_outcome(true, b"", false) {
        QueryOutcome::Lines(ls) => assert!(ls.is_empty()),
        _ => panic!("expected lines"),
    }
    assert!(matches!(query_outcome(false, b"x", true), QueryOutcome::NoData));
    assert!(matches!(query_outcome(false, b"x", false), QueryOutcome::Abort));
}

#[test]
fn query_arguments() {
    let k = KernelData::new(b("/nix/store/k/lib/modules"), b("6.1.0"));
    assert_eq!(
        query_args(&k, QueryField::Softdep, &b("foo")),
        bs(&["-b", "/nix/store/k/lib/modules", "-k", "6.1.0", "-F", "softdep", "foo"])
    );
    assert_eq!(field_name(QueryField::Filename), b("filename"));
    assert_eq!(field_name(QueryField::Name), b("name"));
    assert_eq!(field_name(QueryField::Firmware), b("firmware"));
    assert_eq!(field_name(QueryField::Depends), b("depends"));
}

#[test]
fn end_to_end_two_modules() {
    let deps = |m: &Vec<u8>| -> Vec<Vec<u8>> {
        if m.as_slice() == b"foo" {
            bs(&["bar"])
        } else {
            vec![]
        }
    };
    let (order, _) = closure(deps, bs(&["foo"]));
    assert_eq!(order, bs(&["foo", "bar"]));
    let mut manifest: Vec<Vec<u8>> = Vec::new();
    for m in &order {
        let mut loc = b("/k/");
        loc.extend_from_slice(m);
        loc.extend_from_slice(b".ko");
        let plan = plan_module(&Some(vec![loc]), &Some(vec![])).unwrap();
        assert!(plan.firmware.is_empty());
        if let Some(src) = plan.copy_from {
            manifest.push(src);
        }
    }
    assert_eq!(manifest, bs(&["/k/foo.ko", "/k/bar.ko"]));
}
