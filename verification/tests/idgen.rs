use wallet_ledger::idgen::IdGen;

#[test]
fn test_next() {
    let mut gen = IdGen::new(0, 0);
    for idx in 0..10000 {
        let id = gen.next();
        assert!(id > 0, "id: {}, idx: {}", id, idx);
    }
}
