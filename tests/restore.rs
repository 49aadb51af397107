use balena_migrate::error::MigErrorKind;
use balena_migrate::restore::{may_write_descriptor, next_state, restore_steps, InstallAction, InstallEvent, InstallState, RestoreStep};
use std::collections::HashMap;

fn apply(fs: &mut HashMap<String, Vec<u8>>, steps: &[RestoreStep]) {
    for s in steps {
        match s {
            RestoreStep::Copy { from, to } => {
                let c = fs[from].clone();
                fs.insert(to.clone(), c);
            }
            RestoreStep::Delete { path } => {
                fs.remove(path);
            }
        }
    }
}

#[test]
fn restore_replays_backups_in_reverse() {
    let backups = vec![
        ("config.txt".to_string(), "config.txt.7".to_string()),
        ("config.txt".to_string(), "config.txt.8".to_string()),
        ("cmdline.txt".to_string(), "cmdline.txt.7".to_string()),
    ];
    let steps = restore_steps(&backups, &vec!["balena.zImage".to_string()]);
    assert_eq!(steps.len(), 7);
    match &steps[0] {
        RestoreStep::Copy { from, to } => assert_eq!((from.as_str(), to.as_str()), ("cmdline.txt.7", "cmdline.txt")),
        _ => panic!("the last backup is not restored first"),
    }
    let mut before: HashMap<String, Vec<u8>> = HashMap::new();
    before.insert("config.txt".to_string(), b"orig config".to_vec());
    before.insert("cmdline.txt".to_string(), b"orig cmdline".to_vec());
    let mut fs = before.clone();
    fs.insert("balena.zImage".to_string(), b"kernel".to_vec());
    for (o, b) in &backups {
        let c = fs[o].clone();
        fs.insert(b.clone(), c);
        fs.insert(o.clone(), format!("new {}", b).into_bytes());
    }
    apply(&mut fs, &steps);
    assert_eq!(fs, before);
}

#[test]
fn digest_mismatch_rolls_back_without_descriptor() {
    let mut s = InstallState::Fresh;
    let mut actions = vec![];
    for e in [
        InstallEvent::Checked,
        InstallEvent::Started,
        InstallEvent::Copied { digest_ok: true },
        InstallEvent::Copied { digest_ok: false },
        InstallEvent::Finished,
    ] {
        let (n, a) = next_state(s, e);
        s = n;
        actions.push(a);
    }
    assert_eq!(actions[3], InstallAction::Restore { kind: MigErrorKind::DigestMismatch });
    assert_eq!(actions[4], InstallAction::Reject);
    assert_eq!(s, InstallState::RolledBack);
    assert!(!may_write_descriptor(s));
    assert!(!actions.contains(&InstallAction::WriteDescriptor));
}

#[test]
fn finished_install_commits() {
    let mut s = InstallState::Fresh;
    for e in [InstallEvent::Checked, InstallEvent::Started, InstallEvent::Copied { digest_ok: true }] {
        s = next_state(s, e).0;
    }
    let (s, a) = next_state(s, InstallEvent::Finished);
    assert_eq!(a, InstallAction::WriteDescriptor);
    assert!(may_write_descriptor(s));
    assert_eq!(next_state(s, InstallEvent::Failed { kind: MigErrorKind::IoError }), (InstallState::Committed, InstallAction::Reject));
    assert_eq!(
        next_state(InstallState::Installing, InstallEvent::Failed { kind: MigErrorKind::IoError }),
        (InstallState::RolledBack, InstallAction::Restore { kind: MigErrorKind::IoError })
    );
    assert_eq!(next_state(InstallState::Fresh, InstallEvent::Started), (InstallState::Fresh, InstallAction::Reject));
}
