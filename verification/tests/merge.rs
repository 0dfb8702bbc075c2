use pipeline::merge::{merge_table, Field, Record};

/// A row as a typed entry with `@name`, `hp` and `dmg` serializes: the
/// fields in name order, absent options left out.
fn entry(name: &str, hp: Option<i64>, dmg: Option<i64>) -> Record {
    let mut fields = vec![Field { name: "@name".to_string(), value: format!("\"{name}\"") }];
    if let Some(d) = dmg {
        fields.push(Field { name: "dmg".to_string(), value: d.to_string() });
    }
    if let Some(h) = hp {
        fields.push(Field { name: "hp".to_string(), value: h.to_string() });
    }
    Record { key: name.to_string(), fields }
}

/// A row whose identity serializes as a capitalised `@Name`.
fn cap_entry(name: &str, val: Option<i64>) -> Record {
    let mut fields = vec![Field { name: "@Name".to_string(), value: format!("\"{name}\"") }];
    if let Some(v) = val {
        fields.push(Field { name: "val".to_string(), value: v.to_string() });
    }
    Record { key: name.to_string(), fields }
}

fn field(r: &Record, name: &str) -> Option<i64> {
    r.fields.iter().rev().find(|f| f.name == name).map(|f| f.value.parse().unwrap())
}

fn find<'a>(v: &'a [Record], name: &str) -> &'a Record {
    v.iter().find(|e| e.key == name).expect("entry present")
}

#[test]
fn non_overlapping_field_edits_combine() {
    let base = vec![entry("marine", Some(100), Some(10))];
    let mod_a = vec![entry("marine", Some(200), Some(10))]; // changed hp
    let mod_b = vec![entry("marine", Some(100), Some(50))]; // changed dmg

    let (out, conflicts) = merge_table("objects", &base, &[("A".into(), mod_a), ("B".into(), mod_b)]);

    let m = find(&out, "marine");
    assert_eq!(field(m, "hp"), Some(200));
    assert_eq!(field(m, "dmg"), Some(50));
    assert!(conflicts.is_empty());
}

#[test]
fn same_field_divergence_is_a_conflict_last_wins() {
    let base = vec![entry("marine", Some(100), None)];
    let mod_a = vec![entry("marine", Some(200), None)];
    let mod_b = vec![entry("marine", Some(300), None)];

    let (out, conflicts) = merge_table("objects", &base, &[("A".into(), mod_a), ("B".into(), mod_b)]);

    assert_eq!(field(find(&out, "marine"), "hp"), Some(300)); // later mod wins
    assert_eq!(conflicts.len(), 1);
    let c = &conflicts[0];
    assert_eq!(c.entry, "marine");
    assert_eq!(c.field, "hp");
    assert_eq!(c.previous_mod, "A");
    assert_eq!(c.winning_mod, "B");
}

#[test]
fn added_entry_survives() {
    let base = vec![entry("marine", Some(100), None)];
    let mod_a = vec![entry("marine", Some(100), None), entry("spartan", Some(500), None)];

    let (out, conflicts) = merge_table("objects", &base, &[("A".into(), mod_a)]);

    assert_eq!(out.len(), 2);
    assert_eq!(field(find(&out, "spartan"), "hp"), Some(500));
    assert!(conflicts.is_empty());
}

#[test]
fn base_order_is_preserved() {
    let base = vec![entry("a", None, None), entry("b", None, None), entry("c", None, None)];
    let mod_a = vec![entry("b", Some(1), None)];

    let (out, _) = merge_table("objects", &base, &[("A".into(), mod_a)]);
    let names: Vec<&str> = out.iter().map(|e| e.key.as_str()).collect();
    assert_eq!(names, ["a", "b", "c"]);
}

/// Tables whose identity serializes as something other than `@name` (here
/// `@Name`) still merge by identity rather than duplicating the base copy.
#[test]
fn non_at_name_identity_merges_without_duplicating() {
    let base = vec![cap_entry("UnscLockdown", Some(1))];
    let mod_a = vec![cap_entry("UnscLockdown", Some(2))];

    let (out, conflicts) = merge_table("abilities", &base, &[("A".into(), mod_a)]);

    assert_eq!(out.len(), 1, "must edit the base entry, not duplicate it");
    assert_eq!(field(&out[0], "val"), Some(2));
    assert!(conflicts.is_empty());
}
