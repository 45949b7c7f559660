use celyrion::authority::{Admission, Authority, Declaration, Transaction, WriteExclusive};
use celyrion::types::{Digest, Error, VersionedId};

fn digest(byte: u8) -> Digest {
    Digest([byte; 32])
}

#[test]
fn overlapping_writes_conflict() {
    let mut authority = WriteExclusive::default();
    let a = Transaction {
        id: VersionedId::new("a", 1),
        declaration: Declaration {
            reads: vec![],
            writes: vec![Digest::zero()],
        },
    };
    let b = Transaction {
        id: VersionedId::new("b", 1),
        ..a.clone()
    };
    assert_eq!(authority.admit_transaction(&a).unwrap(), Admission::Admitted);
    assert_eq!(authority.admit_transaction(&b).unwrap(), Admission::Conflict);
    authority.release(&a).unwrap();
    assert_eq!(authority.admit_transaction(&b).unwrap(), Admission::Admitted);
}

#[test]
fn reading_what_another_writes_conflicts() {
    let mut authority = WriteExclusive::default();
    let writer = Transaction {
        id: VersionedId::new("w", 1),
        declaration: Declaration { reads: vec![], writes: vec![digest(1)] },
    };
    let reader = Transaction {
        id: VersionedId::new("r", 1),
        declaration: Declaration { reads: vec![digest(1)], writes: vec![digest(2)] },
    };
    assert_eq!(authority.admit_transaction(&writer).unwrap(), Admission::Admitted);
    assert_eq!(authority.admit_transaction(&reader).unwrap(), Admission::Conflict);
}

#[test]
fn disjoint_transactions_are_both_admitted() {
    let mut authority = WriteExclusive::default();
    let a = Transaction {
        id: VersionedId::new("a", 1),
        declaration: Declaration { reads: vec![digest(3)], writes: vec![digest(1)] },
    };
    let b = Transaction {
        id: VersionedId::new("b", 1),
        declaration: Declaration { reads: vec![digest(3)], writes: vec![digest(2)] },
    };
    assert_eq!(authority.admit_transaction(&a).unwrap(), Admission::Admitted);
    assert_eq!(authority.admit_transaction(&b).unwrap(), Admission::Admitted);
}

#[test]
fn releasing_an_unknown_transaction_fails() {
    let mut authority = WriteExclusive::default();
    let a = Transaction {
        id: VersionedId::new("a", 1),
        declaration: Declaration::default(),
    };
    match authority.release(&a) {
        Err(Error::NotImplemented(msg)) => assert_eq!(msg, "release of unknown transaction"),
        other => panic!("unexpected {other:?}"),
    }
}

#[test]
fn release_undoes_admit() {
    let mut authority = WriteExclusive::default();
    let a = Transaction {
        id: VersionedId::new("a", 1),
        declaration: Declaration { reads: vec![], writes: vec![digest(7)] },
    };
    assert_eq!(authority.admit_transaction(&a).unwrap(), Admission::Admitted);
    authority.release(&a).unwrap();
    assert!(authority.release(&a).is_err());
    assert_eq!(authority.admit_transaction(&a).unwrap(), Admission::Admitted);
}
