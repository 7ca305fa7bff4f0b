use dynvalue::{AddError, Dictionary, Value, parse_i32};

fn float_add(a: u64, b: u64) -> u64 {
    (f64::from_bits(a) + f64::from_bits(b)).to_bits()
}

fn text(s: &str) -> Value {
    Value::new_string(s.to_string())
}

fn int_list(xs: &[i32]) -> Value {
    let mut v = Vec::new();
    for x in xs {
        v.push(Value::new_int(*x));
    }
    Value::new_list(v)
}

fn ints_of(v: &Value) -> Vec<i32> {
    v.as_list()
        .expect("a list")
        .iter()
        .map(|x| x.as_int().expect("an int"))
        .collect()
}

#[test]
fn add_then_get_finds_the_value() {
    let mut d = Dictionary::new();
    d.add("a", Value::new_int(42));
    assert!(d.contains("a"));
    assert_eq!(d.get("a").unwrap().as_int(), Some(42));
    assert_eq!(d.len(), 1);
}

#[test]
fn add_overwrites_with_another_type() {
    let mut d = Dictionary::new();
    d.add("k", Value::new_int(1));
    d.add("k", text("one"));
    assert_eq!(d.len(), 1);
    assert_eq!(d.get("k").unwrap().get_type(), "string");
    assert_eq!(d.get("k").unwrap().as_string(), Some("one".to_string()));
}

#[test]
fn remove_makes_the_key_absent() {
    let mut d = Dictionary::new();
    d.add("a", Value::new_bool(true));
    d.add("b", Value::new_int(2));
    d.remove("a");
    assert!(!d.contains("a"));
    assert!(d.get("a").is_none());
    assert!(d.contains("b"));
    assert_eq!(d.len(), 1);
}

#[test]
fn remove_of_a_missing_key_does_nothing() {
    let mut d = Dictionary::new();
    d.add("b", Value::new_int(2));
    d.remove("zzz");
    assert!(!d.contains("zzz"));
    assert!(d.get("zzz").is_none());
    assert_eq!(d.len(), 1);
}

#[test]
fn as_int_on_an_int() {
    assert_eq!(Value::new_int(-17).as_int(), Some(-17));
}

#[test]
fn as_int_reads_a_numeric_string() {
    assert_eq!(text("7").as_int(), Some(7));
    assert_eq!(text("-12").as_int(), Some(-12));
    assert_eq!(text("+5").as_int(), Some(5));
    assert_eq!(text("007").as_int(), Some(7));
    assert_eq!(text("2147483647").as_int(), Some(i32::MAX));
    assert_eq!(text("-2147483648").as_int(), Some(i32::MIN));
}

#[test]
fn as_int_gives_zero_for_text_that_is_no_number() {
    assert_eq!(text("abc").as_int(), Some(0));
    assert_eq!(text("").as_int(), Some(0));
    assert_eq!(text("-").as_int(), Some(0));
    assert_eq!(text(" 7").as_int(), Some(0));
    assert_eq!(text("7x").as_int(), Some(0));
    assert_eq!(text("2147483648").as_int(), Some(0));
    assert_eq!(text("-2147483649").as_int(), Some(0));
    assert_eq!(text("99999999999999999999").as_int(), Some(0));
}

#[test]
fn as_int_on_a_bool_is_absent() {
    assert_eq!(Value::new_bool(true).as_int(), None);
    assert_eq!(Value::new_float(1.0f64.to_bits()).as_int(), None);
}

#[test]
fn parse_i32_agrees_with_std() {
    for s in ["0", "7", "-0", "+12", "-2147483648", "2147483647", "2147483648", "", "+", "1_000", "12 ", "٣"] {
        assert_eq!(parse_i32(s), s.parse::<i32>().ok(), "on {:?}", s);
    }
}

#[test]
fn accessors_match_only_their_own_variant() {
    let f = Value::new_float(2.5f64.to_bits());
    assert_eq!(f.as_float().map(f64::from_bits), Some(2.5));
    assert_eq!(f.as_bool(), None);
    assert_eq!(Value::new_bool(false).as_bool(), Some(false));
    assert_eq!(Value::new_int(1).as_float(), None);
    assert_eq!(Value::new_int(1).as_string(), None);
    assert!(Value::new_int(1).as_list().is_none());
    assert!(Value::new_int(1).as_dict().is_none());
}

#[test]
fn get_type_names_each_variant() {
    assert_eq!(Value::new_int(1).get_type(), "int");
    assert_eq!(Value::new_float(0).get_type(), "float");
    assert_eq!(text("x").get_type(), "string");
    assert_eq!(Value::new_bool(true).get_type(), "bool");
    assert_eq!(int_list(&[]).get_type(), "list");
    assert_eq!(Value::new_dict(Dictionary::new()).get_type(), "dict");
}

#[test]
fn add_two_ints() {
    let r = Value::new_int(2).add(Value::new_int(3), float_add).unwrap();
    assert_eq!(r.as_int(), Some(5));
}

#[test]
fn add_two_strings_left_first() {
    let r = text("ab").add(text("cd"), float_add).unwrap();
    assert_eq!(r.as_string(), Some("abcd".to_string()));
}

#[test]
fn add_two_lists_keeps_left_then_right() {
    let r = int_list(&[1]).add(int_list(&[2]), float_add).unwrap();
    assert_eq!(ints_of(&r), vec![1, 2]);
    let r = int_list(&[3, 4]).add(int_list(&[]), float_add).unwrap();
    assert_eq!(ints_of(&r), vec![3, 4]);
}

#[test]
fn add_two_floats() {
    let r = Value::new_float(1.5f64.to_bits())
        .add(Value::new_float(2.25f64.to_bits()), float_add)
        .unwrap();
    assert_eq!(r.as_float().map(f64::from_bits), Some(3.75));
}

#[test]
fn add_int_and_float_is_refused() {
    let r = Value::new_int(1).add(Value::new_float(1.0f64.to_bits()), float_add);
    assert_eq!(r.unwrap_err(), AddError::Mismatch("int".to_string(), "float".to_string()));
}

#[test]
fn add_of_same_variant_dicts_or_bools_is_refused() {
    let r = Value::new_dict(Dictionary::new()).add(Value::new_dict(Dictionary::new()), float_add);
    assert_eq!(r.unwrap_err(), AddError::Mismatch("dict".to_string(), "dict".to_string()));
    let r = Value::new_bool(true).add(Value::new_bool(false), float_add);
    assert_eq!(r.unwrap_err(), AddError::Mismatch("bool".to_string(), "bool".to_string()));
    let r = text("1").add(Value::new_int(1), float_add);
    assert_eq!(r.unwrap_err(), AddError::Mismatch("string".to_string(), "int".to_string()));
}

#[test]
fn add_of_ints_out_of_range_is_refused() {
    let r = Value::new_int(i32::MAX).add(Value::new_int(1), float_add);
    assert_eq!(r.unwrap_err(), AddError::Overflow);
    let r = Value::new_int(i32::MIN).add(Value::new_int(-1), float_add);
    assert_eq!(r.unwrap_err(), AddError::Overflow);
    let r = Value::new_int(i32::MIN).add(Value::new_int(i32::MAX), float_add).unwrap();
    assert_eq!(r.as_int(), Some(-1));
}

#[test]
fn a_list_read_out_is_a_copy() {
    let mut d = Dictionary::new();
    d.add("x", int_list(&[1, 2]));
    let mut l = d.get("x").unwrap().as_list().unwrap();
    l.push(Value::new_int(3));
    l[0] = Value::new_int(100);
    assert_eq!(ints_of(d.get("x").unwrap()), vec![1, 2]);
}

#[test]
fn a_value_read_out_of_a_dict_value_is_a_copy() {
    let mut inner = Dictionary::new();
    inner.add("x", int_list(&[1]));
    let v = Value::new_dict(inner);
    let mut got = v.get("x").unwrap();
    got.clear();
    assert_eq!(ints_of(&v.get("x").unwrap()), vec![1]);
    let mut dd = v.as_dict().unwrap();
    dd.add("y", Value::new_int(5));
    assert_eq!(v.contains("y"), Some(false));
}

#[test]
fn clear_empties_a_dictionary() {
    let mut d = Dictionary::new();
    d.add("a", Value::new_int(1));
    d.add("b", Value::new_int(2));
    assert!(!d.is_empty());
    d.clear();
    assert_eq!(d.len(), 0);
    assert!(d.is_empty());
    assert!(!d.contains("a"));
}

#[test]
fn dict_round_trip_keeps_the_entries() {
    let mut d = Dictionary::new();
    d.add("n", Value::new_int(3));
    d.add("s", text("hi"));
    d.add("l", int_list(&[1, 2]));
    let v = Value::new_dict(d);
    let back = v.as_dict().unwrap();
    assert_eq!(back.len(), 3);
    assert_eq!(back.get("n").unwrap().as_int(), Some(3));
    assert_eq!(back.get("s").unwrap().as_string(), Some("hi".to_string()));
    assert_eq!(ints_of(back.get("l").unwrap()), vec![1, 2]);
}

#[test]
fn keys_and_values_correspond() {
    let mut d = Dictionary::new();
    d.add("a", Value::new_int(1));
    d.add("b", Value::new_int(2));
    d.add("c", Value::new_int(3));
    d.add("b", Value::new_int(20));
    let ks = d.keys();
    let vs = d.values();
    let mut sorted = ks.clone();
    sorted.sort();
    assert_eq!(sorted, vec!["a", "b", "c"]);
    assert_eq!(vs.len(), 3);
    for (k, v) in ks.iter().zip(vs.iter()) {
        assert_eq!(d.get(k).unwrap().as_int(), v.as_int());
    }
}

#[test]
fn get_mut_changes_the_entry_in_place() {
    let mut d = Dictionary::new();
    d.add("x", Value::new_int(1));
    *d.get_mut("x").unwrap() = text("changed");
    assert_eq!(d.get("x").unwrap().as_string(), Some("changed".to_string()));
    assert!(d.get_mut("y").is_none());
    let mut v = Value::new_dict(d);
    v.get_mut("x").unwrap().clear();
    assert_eq!(v.get("x").unwrap().as_string(), Some("changed".to_string()));
    *v.get_mut("x").unwrap() = int_list(&[9]);
    assert_eq!(ints_of(&v.get("x").unwrap()), vec![9]);
    assert!(Value::new_int(1).get_mut("x").is_none());
}

#[test]
fn len_and_is_empty_on_values() {
    assert_eq!(int_list(&[1, 2, 3]).len(), Some(3));
    assert_eq!(int_list(&[]).is_empty(), Some(true));
    let mut d = Dictionary::new();
    d.add("a", Value::new_int(1));
    let v = Value::new_dict(d);
    assert_eq!(v.len(), Some(1));
    assert_eq!(v.is_empty(), Some(false));
    assert_eq!(text("abc").len(), None);
    assert_eq!(Value::new_bool(true).is_empty(), None);
}

#[test]
fn clear_on_values() {
    let mut l = int_list(&[1, 2]);
    l.clear();
    assert_eq!(l.len(), Some(0));
    let mut d = Dictionary::new();
    d.add("a", Value::new_int(1));
    let mut v = Value::new_dict(d);
    v.clear();
    assert_eq!(v.is_empty(), Some(true));
    let mut i = Value::new_int(7);
    i.clear();
    assert_eq!(i.as_int(), Some(7));
}

#[test]
fn dict_operations_through_a_value() {
    let mut d = Dictionary::new();
    d.add("a", Value::new_int(1));
    d.add("b", text("two"));
    let mut v = Value::new_dict(d);
    assert_eq!(v.contains("a"), Some(true));
    assert_eq!(v.contains("z"), Some(false));
    assert_eq!(v.get("a").unwrap().as_int(), Some(1));
    assert!(v.get("z").is_none());
    let mut ks = v.keys().unwrap();
    ks.sort();
    assert_eq!(ks, vec!["a", "b"]);
    assert_eq!(v.values().unwrap().len(), 2);
    v.remove("a");
    assert_eq!(v.contains("a"), Some(false));
    assert_eq!(v.len(), Some(1));
}

#[test]
fn dict_operations_on_a_scalar_are_absent() {
    let mut v = Value::new_int(5);
    assert_eq!(v.contains("a"), None);
    assert!(v.get("a").is_none());
    assert!(v.keys().is_none());
    assert!(v.values().is_none());
    v.remove("a");
    assert_eq!(v.as_int(), Some(5));
}

#[test]
fn deep_copy_is_independent() {
    let mut inner = Dictionary::new();
    inner.add("k", int_list(&[1]));
    let mut outer = Dictionary::new();
    outer.add("inner", Value::new_dict(inner));
    let copy = outer.deep_copy();
    outer.get_mut("inner").unwrap().remove("k");
    assert_eq!(outer.get("inner").unwrap().contains("k"), Some(false));
    assert_eq!(copy.get("inner").unwrap().contains("k"), Some(true));
}

#[test]
fn an_empty_dictionary_has_no_keys_or_values() {
    let d = Dictionary::new();
    assert!(d.is_empty());
    assert_eq!(d.len(), 0);
    assert!(d.keys().is_empty());
    assert!(d.values().is_empty());
    assert!(!d.contains(""));
    let v = Value::new_dict(Dictionary::new());
    assert_eq!(v.keys().map(|k| k.len()), Some(0));
}

#[test]
fn from_pairs_adds_in_order() {
    let d = Dictionary::from_pairs(vec![
        ("a".to_string(), Value::new_int(1)),
        ("b".to_string(), text("bee")),
        ("a".to_string(), Value::new_int(3)),
    ]);
    assert_eq!(d.len(), 2);
    assert_eq!(d.get("a").unwrap().as_int(), Some(3));
    assert_eq!(d.get("b").unwrap().as_string(), Some("bee".to_string()));
    assert!(Dictionary::from_pairs(Vec::new()).is_empty());
}

#[test]
fn clone_is_a_deep_copy() {
    let mut d = Dictionary::new();
    d.add("l", int_list(&[1, 2]));
    let v = Value::new_dict(d);
    let mut c = v.clone();
    c.get_mut("l").unwrap().clear();
    assert_eq!(ints_of(&v.get("l").unwrap()), vec![1, 2]);
    assert_eq!(c.get("l").unwrap().len(), Some(0));
}

#[test]
fn len_changes_by_one_only_for_new_or_present_keys() {
    let mut d = Dictionary::new();
    d.add("a", Value::new_int(1));
    d.add("a", Value::new_int(2));
    assert_eq!(d.len(), 1);
    d.add("b", Value::new_int(3));
    assert_eq!(d.len(), 2);
    d.remove("c");
    assert_eq!(d.len(), 2);
    d.remove("a");
    assert_eq!(d.len(), 1);
}
