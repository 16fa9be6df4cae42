use honeycomb::{
    encode_xml_entities, insert_policy_bytes, plan_patch, policy_to_bytes, remove_policy_bytes,
    PatchPlan, Policy,
};

#[test]
fn policy_node_layout_is_exact() {
    let bytes = policy_to_bytes("no_bluetooth");
    let mut expected = vec![0xCF, 0xFF, 0xFF, 0x00, 0x0C];
    expected.extend_from_slice(b"no_bluetooth");
    assert_eq!(bytes, expected);
}

#[test]
fn removal_drops_range_and_decrements_counter() {
    let buffer: Vec<u8> = (0u8..60).collect();
    let mut patched = buffer.clone();
    remove_policy_bytes(&mut patched, 40, 55);
    assert_eq!(patched.len(), buffer.len() - 15);
    // the range [40, 55) is gone: position 40 now holds what 55 held
    assert_eq!(&patched[..40], &buffer[..40]);
    assert_eq!(patched[41], buffer[56]);
    // the counter byte, five from the end, went down by one
    assert_eq!(patched[patched.len() - 5], buffer[55] - 1);
}

#[test]
fn removal_counter_wraps_on_underflow() {
    // position len-5 after removal holds value 0
    let mut buffer = vec![9, 9, 0, 1, 2, 3, 4];
    remove_policy_bytes(&mut buffer, 0, 2);
    assert_eq!(buffer, vec![255, 1, 2, 3, 4]);
}

#[test]
fn insertion_splices_node_and_increments_counter() {
    let buffer: Vec<u8> = (100u8..160).collect();
    let mut patched = buffer.clone();
    insert_policy_bytes(&mut patched, 20, "no_bluetooth");
    assert_eq!(patched.len(), buffer.len() + 17);
    assert_eq!(&patched[..20], &buffer[..20]);
    let mut node = vec![0xCF, 0xFF, 0xFF, 0x00, 0x0C];
    node.extend_from_slice(b"no_bluetooth");
    assert_eq!(&patched[20..37], &node[..]);
    assert_eq!(patched[37], buffer[20]);
    assert_eq!(patched[patched.len() - 5], buffer[buffer.len() - 5] + 1);
}

#[test]
fn insertion_counter_wraps_on_overflow() {
    let mut buffer = vec![1, 2, 255, 4, 5, 6, 7];
    // the node for "ab" is 7 bytes, so after insertion at the front the
    // counter position new_len - 5 == 9 falls on the old byte at index 2
    let before = buffer.clone();
    insert_policy_bytes(&mut buffer, 0, "ab");
    assert_eq!(buffer.len(), before.len() + 7);
    assert_eq!(buffer[buffer.len() - 5], 0);
}

#[test]
fn plan_selects_removal_for_known_matching_policy() {
    let policies = vec![
        Policy { name: "no_sms".to_string(), start_offset: 40, end_offset: 55 },
        Policy { name: "volume".to_string(), start_offset: 60, end_offset: 70 },
        Policy { name: "no_sms".to_string(), start_offset: 80, end_offset: 95 },
    ];
    let known = vec!["no_sms".to_string(), "volume".to_string()];
    match plan_patch(&policies, &known, &"no_sms".to_string()) {
        PatchPlan::Remove(found) => {
            assert_eq!(found.len(), 2);
            assert_eq!(found[0].start_offset, 40);
            assert_eq!(found[1].start_offset, 80);
        },
        PatchPlan::Insert => panic!("expected removal"),
    }
}

#[test]
fn plan_selects_insertion_when_nothing_matches() {
    let policies = vec![Policy {
        name: "no_sms".to_string(),
        start_offset: 40,
        end_offset: 55,
    }];
    let known = vec!["no_sms".to_string()];
    assert!(matches!(
        plan_patch(&policies, &known, &"no_bluetooth".to_string()),
        PatchPlan::Insert
    ));
    // a record whose name is not a known policy name is not a removal target
    let unknown_only = vec![Policy {
        name: "mystery".to_string(),
        start_offset: 10,
        end_offset: 20,
    }];
    let known2 = vec!["no_sms".to_string()];
    assert!(matches!(
        plan_patch(&unknown_only, &known2, &"mystery".to_string()),
        PatchPlan::Insert
    ));
}

#[test]
fn xml_entities_are_escaped() {
    assert_eq!(
        encode_xml_entities("a&b<c>d\"e'f"),
        "a&amp;b&lt;c&gt;d&quot;e&apos;f"
    );
    assert_eq!(encode_xml_entities("plain"), "plain");
    assert_eq!(encode_xml_entities(""), "");
}
