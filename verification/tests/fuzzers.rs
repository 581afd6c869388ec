use fuzzerk::fuzzers::{FuzzChain, FuzzChainImmuts, Fuzzer};

fn list(items: &[&str]) -> Vec<Vec<u8>> {
    items.iter().map(|s| s.as_bytes().to_vec()).collect()
}

#[test]
fn loop_fuzzer_is_periodic_in_the_step() {
    let f = Fuzzer::LoopFixedStrings(list(&["a", "bb", "ccc"]));
    assert!(f.is_usable());
    for step in 0..10usize {
        let mut buf = b"pre".to_vec();
        f.append_fuzz_immut(step, &mut buf);
        let want = ["a", "bb", "ccc"][step % 3];
        assert_eq!(buf, format!("pre{}", want).into_bytes());
    }
    let mut buf = Vec::new();
    f.append_fuzz_immut(usize::MAX, &mut buf);
    assert_eq!(buf, list(&["a", "bb", "ccc"])[usize::MAX % 3]);
}

#[test]
fn random_fixed_strings_picks_from_the_list() {
    let items = list(&["one", "two", "three"]);
    let f = Fuzzer::RandomFixedStrings(items.clone());
    let mut seen = std::collections::HashSet::new();
    for step in 0..200 {
        let mut buf = vec![0xff];
        f.append_fuzz_immut(step, &mut buf);
        assert_eq!(buf[0], 0xff);
        let got = buf[1..].to_vec();
        assert!(items.contains(&got));
        seen.insert(got);
    }
    assert_eq!(seen.len(), 3);
}

#[test]
fn random_fixed_fuzzer_keeps_to_length_and_charset() {
    let f = Fuzzer::RandomFixedFuzzer { minlen: 2, maxlen: 5, charset: b"xyz".to_vec() };
    let mut lens = std::collections::HashSet::new();
    for step in 0..300 {
        let mut buf = b"keep".to_vec();
        f.append_fuzz_immut(step, &mut buf);
        assert_eq!(&buf[..4], b"keep");
        let got = &buf[4..];
        assert!((2..=5).contains(&got.len()));
        assert!(got.iter().all(|c| b"xyz".contains(c)));
        lens.insert(got.len());
    }
    assert_eq!(lens.len(), 4);
}

#[test]
fn printables_are_ascii_32_to_126() {
    let f = Fuzzer::new_printables(0, 40);
    match &f {
        Fuzzer::RandomFixedFuzzer { minlen, maxlen, charset } => {
            assert_eq!((*minlen, *maxlen), (0, 40));
            assert_eq!(*charset, (32u8..=126).collect::<Vec<u8>>());
        }
        other => panic!("unexpected {:?}", other),
    }
    for step in 0..100 {
        let mut buf = Vec::new();
        f.append_fuzz_immut(step, &mut buf);
        assert!(buf.len() <= 40);
        assert!(buf.iter().all(|c| (32..=126).contains(c)));
    }
}

#[test]
fn random_random_fuzzer_keeps_to_length() {
    let f = Fuzzer::RandomRandomFuzzer { minlen: 3, maxlen: 3 };
    let mut values = std::collections::HashSet::new();
    for step in 0..100 {
        let mut buf = Vec::new();
        f.append_fuzz_immut(step, &mut buf);
        assert_eq!(buf.len(), 3);
        values.extend(buf);
    }
    assert!(values.len() > 20);
}

#[test]
fn usability_is_told_by_the_parameters() {
    assert!(!Fuzzer::LoopFixedStrings(vec![]).is_usable());
    assert!(!Fuzzer::RandomFixedStrings(vec![]).is_usable());
    assert!(Fuzzer::RandomFixedStrings(vec![vec![]]).is_usable());
    assert!(!Fuzzer::RandomFixedFuzzer { minlen: 3, maxlen: 2, charset: vec![1] }.is_usable());
    assert!(!Fuzzer::RandomFixedFuzzer { minlen: 0, maxlen: 2, charset: vec![] }.is_usable());
    assert!(Fuzzer::RandomFixedFuzzer { minlen: 0, maxlen: 0, charset: vec![] }.is_usable());
    assert!(!Fuzzer::RandomRandomFuzzer { minlen: 1, maxlen: 0 }.is_usable());
    assert!(Fuzzer::RandomRandomFuzzer { minlen: 0, maxlen: 0 }.is_usable());
}

#[test]
fn an_empty_chain_gives_the_empty_record() {
    let c = FuzzChainImmuts::new();
    assert!(c.is_usable());
    assert_eq!(c.get(0), Vec::<u8>::new());
    assert_eq!(c.get(17), Vec::<u8>::new());
    let mut m = FuzzChain::new();
    assert_eq!(m.get(), Vec::<u8>::new());
}

#[test]
fn a_chain_appends_its_fuzzers_in_order() {
    let same = Fuzzer::LoopFixedStrings(list(&["0", "1"]));
    let mut c = FuzzChainImmuts::new();
    c.push(same.clone());
    c.push(Fuzzer::LoopFixedStrings(list(&["-", "+", "*"])));
    c.push(same);
    assert_eq!(c.get(0), b"0-0".to_vec());
    assert_eq!(c.get(1), b"1+1".to_vec());
    assert_eq!(c.get(2), b"0*0".to_vec());
    assert_eq!(c.get(1), b"1+1".to_vec());
}

#[test]
fn a_counting_chain_moves_on_by_one_each_time() {
    let mut c = FuzzChain::new();
    c.push(Fuzzer::LoopFixedStrings(list(&["a", "b", "c"])));
    c.push(Fuzzer::RandomFixedFuzzer { minlen: 1, maxlen: 1, charset: b"!".to_vec() });
    let got: Vec<Vec<u8>> = (0..5).map(|_| c.get()).collect();
    assert_eq!(got, list(&["a!", "b!", "c!", "a!", "b!"]));
}

#[test]
fn a_chain_with_an_unusable_fuzzer_is_not_usable() {
    let mut c = FuzzChainImmuts::new();
    c.push(Fuzzer::new_printables(1, 2));
    assert!(c.is_usable());
    c.push(Fuzzer::RandomFixedStrings(vec![]));
    assert!(!c.is_usable());
}

#[test]
fn the_changing_operation_gives_what_the_plain_one_gives() {
    let mut f = Fuzzer::LoopFixedStrings(list(&["a", "bb"]));
    let before = f.clone();
    let mut buf = b"x".to_vec();
    f.append_fuzz(3, &mut buf);
    assert_eq!(buf, b"xbb".to_vec());
    assert_eq!(f, before);
}
