use tokio_console::intern::{hash, should_shrink, InternedStr, Strings};

fn same_allocation(a: &InternedStr, b: &InternedStr) -> bool {
    std::ptr::eq(a.as_str().as_ptr(), b.as_str().as_ptr())
}

#[test]
fn equal_texts_share_one_allocation() {
    let mut strings = Strings::new();
    let a = strings.string("tokio::task".to_string());
    let b = strings.string_ref("tokio::task");
    assert_eq!(a.as_str(), "tokio::task");
    assert_eq!(b.as_str(), "tokio::task");
    assert!(a.same_text(&b));
    assert!(same_allocation(&a, &b));
    assert_eq!(strings.len(), 1);
}

#[test]
fn different_texts_get_different_entries() {
    let mut strings = Strings::new();
    let a = strings.string_ref("a");
    let b = strings.string_ref("b");
    assert!(!a.same_text(&b));
    assert!(!same_allocation(&a, &b));
    assert_eq!(strings.len(), 2);
}

#[test]
fn empty_text_is_interned_like_any_other() {
    let mut strings = Strings::new();
    let a = strings.string(String::new());
    let b = strings.string_ref("");
    assert_eq!(a.as_str(), "");
    assert!(same_allocation(&a, &b) || a.as_str().is_empty());
    assert_eq!(strings.len(), 1);
}

#[test]
fn clone_keeps_text_and_allocation() {
    let mut strings = Strings::new();
    let a = strings.string_ref("src/main.rs:10:5");
    let b = a.clone();
    assert_eq!(b.as_str(), "src/main.rs:10:5");
    assert!(same_allocation(&a, &b));
}

#[test]
fn insert_registers_a_new_text() {
    let mut strings = Strings::new();
    let a = strings.insert("fresh".to_string());
    assert_eq!(a.as_str(), "fresh");
    assert_eq!(strings.len(), 1);
    let b = strings.string_ref("fresh");
    assert!(same_allocation(&a, &b));
}

#[test]
fn sweep_keeps_what_is_held() {
    let mut strings = Strings::new();
    let held = strings.string_ref("held");
    let dropped = strings.string_ref("dropped");
    drop(dropped);
    strings.retain_referenced();
    assert_eq!(strings.len(), 1);
    let again = strings.string_ref("held");
    assert!(same_allocation(&held, &again));
    assert_eq!(strings.len(), 1);
}

#[test]
fn sweep_drops_what_nobody_holds_and_next_request_is_fresh() {
    let mut strings = Strings::new();
    let first = strings.string_ref("gone");
    assert_eq!(first.as_str(), "gone");
    drop(first);
    strings.retain_referenced();
    assert_eq!(strings.len(), 0);
    let second = strings.string_ref("gone");
    assert_eq!(second.as_str(), "gone");
    assert_eq!(strings.len(), 1);
}

#[test]
fn sweep_of_empty_registry_does_nothing() {
    let mut strings = Strings::new();
    strings.retain_referenced();
    assert_eq!(strings.len(), 0);
}

#[test]
fn sweep_keeps_order_of_first_use() {
    let mut strings = Strings::new();
    let a = strings.string_ref("a");
    let b = strings.string_ref("b");
    let c = strings.string_ref("c");
    drop(b);
    strings.retain_referenced();
    assert_eq!(strings.len(), 2);
    // the handles that are left still read the same
    assert_eq!(a.as_str(), "a");
    assert_eq!(c.as_str(), "c");
}

#[test]
fn retain_counted_keeps_entries_with_more_than_one_holder() {
    let mut strings = Strings::new();
    let _a = strings.string_ref("a");
    let _b = strings.string_ref("b");
    let _c = strings.string_ref("c");
    let _d = strings.string_ref("d");
    let removed = strings.retain_counted(&vec![2, 1, 0, 5]);
    assert_eq!(removed, 2);
    assert_eq!(strings.len(), 2);
    // "b" and "c" are registered anew, "a" and "d" are found
    strings.string_ref("a");
    assert_eq!(strings.len(), 2);
    strings.string_ref("d");
    assert_eq!(strings.len(), 2);
    strings.string_ref("b");
    assert_eq!(strings.len(), 3);
    strings.string_ref("c");
    assert_eq!(strings.len(), 4);
}

#[test]
fn shrinking_needs_a_removal_and_enough_slack() {
    // 512 slots of 8 bytes are exactly 4096 bytes
    assert!(should_shrink(1, 512, 8));
    assert!(!should_shrink(1, 511, 8));
    assert!(!should_shrink(0, 512, 8));
    assert!(!should_shrink(0, 0, 8));
    assert!(should_shrink(3, 4096, 1));
    assert!(!should_shrink(3, 4095, 1));
    assert!(!should_shrink(1, 1_000_000, 0));
    assert!(should_shrink(1, usize::MAX, usize::MAX));
}

#[test]
fn default_registry_is_empty() {
    let strings = Strings::default();
    assert_eq!(strings.len(), 0);
}

#[test]
fn hash_mixes_each_byte_in_turn() {
    assert_eq!(hash(""), 0xcbf2_9ce4_8422_2325);
    assert_eq!(hash("a"), 0xaf63_dc4c_8601_ec8c);
    assert_eq!(hash("foobar"), 0x8594_4171_f739_67e8);
    assert_ne!(hash("ab"), hash("ba"));
}

#[test]
fn many_texts_are_found_again() {
    let mut strings = Strings::new();
    let mut handles = Vec::new();
    for n in 0..500u32 {
        handles.push(strings.string(format!("task-{}", n)));
    }
    assert_eq!(strings.len(), 500);
    for n in 0..500u32 {
        let again = strings.string(format!("task-{}", n));
        assert!(same_allocation(&again, &handles[n as usize]));
    }
    assert_eq!(strings.len(), 500);
    // drop every other handle, sweep, and look again
    let kept: Vec<InternedStr> = handles.into_iter().step_by(2).collect();
    strings.retain_referenced();
    assert_eq!(strings.len(), 250);
    for (i, handle) in kept.iter().enumerate() {
        let again = strings.string(format!("task-{}", 2 * i));
        assert!(same_allocation(&again, handle));
    }
    assert_eq!(strings.len(), 250);
    strings.string_ref("task-1");
    assert_eq!(strings.len(), 251);
}

#[test]
fn sweep_of_a_large_registry_gives_storage_back() {
    let mut strings = Strings::new();
    let mut handles = Vec::new();
    for n in 0..4_000u32 {
        handles.push(strings.string(format!("location-{}", n)));
    }
    let kept = handles.split_off(3_990);
    drop(handles);
    strings.retain_referenced();
    assert_eq!(strings.len(), 10);
    for (i, handle) in kept.iter().enumerate() {
        assert_eq!(handle.as_str(), format!("location-{}", 3_990 + i));
        let again = strings.string_ref(handle.as_str());
        assert!(same_allocation(&again, handle));
    }
    assert_eq!(strings.len(), 10);
}
