use expense_splitter::seqs::{copy_ids, copy_names, has_name, ids_without, names_without, no_repeats};
use expense_splitter::sorting::sort_ids;
use expense_splitter::state::{DebtKey, Group, Ledger};
use expense_splitter::table::{Key, Table};
use expense_splitter::text::{decimal_string, is_blank, utf8_len};

fn names(list: &[&str]) -> Vec<String> {
    list.iter().map(|s| s.to_string()).collect()
}

#[test]
fn decimal_string_writes_numerals() {
    assert_eq!("0", decimal_string(0));
    assert_eq!("7", decimal_string(7));
    assert_eq!("10", decimal_string(10));
    assert_eq!("1234567890", decimal_string(1234567890));
    assert_eq!("340282366920938463463374607431768211455", decimal_string(u128::MAX));
    for n in [9u128, 99, 100, 101, 18446744073709551615, 10u128.pow(38)] {
        assert_eq!(n.to_string(), decimal_string(n));
    }
}

#[test]
fn is_blank_goes_by_white_space() {
    assert!(is_blank(""));
    assert!(is_blank(" \t\r\n\u{b}\u{c}"));
    assert!(is_blank("\u{85}\u{a0}\u{1680}\u{2000}\u{200a}\u{2028}\u{2029}\u{202f}\u{205f}\u{3000}"));
    assert!(!is_blank(" a "));
    assert!(!is_blank("\u{200b}"));
    assert!(!is_blank("\u{1c}"));
    for c in (0..0x3100u32).filter_map(char::from_u32) {
        assert_eq!(c.is_whitespace(), is_blank(&c.to_string()), "{:?}", c);
    }
}

#[test]
fn utf8_len_counts_bytes() {
    assert_eq!(0, utf8_len(""));
    assert_eq!(5, utf8_len("hello"));
    assert_eq!(2, utf8_len("é"));
    assert_eq!(8, utf8_len("a€𝄞"));
}

#[test]
fn sort_ids_orders_by_size() {
    assert_eq!(Vec::<u64>::new(), sort_ids(&vec![]));
    assert_eq!(vec![1, 2, 2, 3, 9], sort_ids(&vec![9, 2, 3, 1, 2]));
    assert_eq!(vec![0, u64::MAX], sort_ids(&vec![u64::MAX, 0]));
}

#[test]
fn names_and_identifiers_are_searched_and_filtered() {
    let v = names(&["a", "b", "a", "c"]);
    assert!(has_name(&v, &"c".to_string()));
    assert!(!has_name(&v, &"d".to_string()));
    assert!(!no_repeats(&v));
    assert!(no_repeats(&names(&["a", "b", "c"])));
    assert!(no_repeats(&names(&[])));
    assert_eq!(names(&["b", "c"]), names_without(&v, &"a".to_string()));
    assert_eq!(v, copy_names(&v));
    let ids = vec![4u64, 2, 4, 5];
    assert_eq!(vec![2u64, 5], ids_without(&ids, 4));
    assert_eq!(ids, copy_ids(&ids));
}

#[test]
fn table_holds_one_value_for_each_key() {
    let mut t: Table<String, u128> = Table::new();
    assert_eq!(0, t.len());
    t.insert("a".to_string(), 1);
    t.insert("b".to_string(), 2);
    t.insert("a".to_string(), 3);
    assert_eq!(2, t.len());
    assert_eq!(Some(&3), t.get(&"a".to_string()));
    assert_eq!(Some(&2), t.get(&"b".to_string()));
    assert_eq!(None, t.get(&"c".to_string()));
    assert!(t.contains_key(&"b".to_string()));
    assert_eq!("a", t.key_at(0));
    assert_eq!(&3, t.value_at(0));
    t.remove(&"a".to_string());
    t.remove(&"zz".to_string());
    assert_eq!(1, t.len());
    assert!(!t.contains_key(&"a".to_string()));
    assert_eq!("b", t.key_at(0));
    assert_eq!(&2, t.value_at(0));
}

#[test]
fn debt_keys_tell_the_direction() {
    let ab = DebtKey::new(1, &"a".to_string(), &"b".to_string());
    let ba = DebtKey::new(1, &"b".to_string(), &"a".to_string());
    let other = DebtKey::new(2, &"a".to_string(), &"b".to_string());
    assert!(ab.same(&DebtKey::new(1, &"a".to_string(), &"b".to_string())));
    assert!(!ab.same(&ba));
    assert!(!ab.same(&other));
    assert!(7u64.same(&7));
    assert!(!7u64.same(&8));
    assert!("x".to_string().same(&"x".to_string()));
    assert!(!"x".to_string().same(&"y".to_string()));
}

#[test]
fn is_valid_tells_what_the_data_model_forbids() {
    let group = |members: &[&str]| Group {
        id: 1,
        name: "Flat".to_string(),
        creator: "a".to_string(),
        members: names(members),
        created_at: 0,
    };
    let mut ledger = Ledger::new();
    assert!(ledger.is_valid());
    ledger.groups.insert(1, group(&["a", "b"]));
    ledger.debts.insert(DebtKey::new(1, &"a".to_string(), &"b".to_string()), 5);
    assert!(ledger.is_valid());

    ledger.groups.insert(1, group(&["a", "b", "a"]));
    assert!(!ledger.is_valid());
    ledger.groups.insert(1, group(&[]));
    assert!(!ledger.is_valid());
    ledger.groups.insert(1, group(&["a"]));
    assert!(ledger.is_valid());

    ledger.debts.insert(DebtKey::new(1, &"b".to_string(), &"a".to_string()), 0);
    assert!(!ledger.is_valid());
    ledger.debts.remove(&DebtKey::new(1, &"b".to_string(), &"a".to_string()));
    assert!(ledger.is_valid());
    ledger.debts.insert(DebtKey::new(1, &"a".to_string(), &"a".to_string()), 1);
    assert!(!ledger.is_valid());
}
