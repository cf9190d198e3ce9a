use aylang::binding::{FunDec, Tense};
use aylang::scope::ScopeStack;
use aylang::tense::{conjugate, find_delimiter, match_function, read_key};
use aylang::text::{chars_of, same_chars};
use std::rc::Rc;

fn fun(name: &str) -> Rc<FunDec> {
    Rc::new(FunDec { name: name.to_string(), ..Default::default() })
}

fn chars(text: &str) -> Vec<char> {
    text.chars().collect()
}

#[test]
fn test_match_function() {
    // fn scope {
    //    fn t.aron {}
    //    taron()   -- valid
    //    tìyaron() -- valid
    //    tayaron() -- valid
    // }
    // taron() -- invalid
    let mut funs = ScopeStack::<FunDec>::new();

    funs.push_layer();
    funs.define(
        "scope".to_string(),
        Rc::new(FunDec { name: "scope".to_owned(), ..Default::default() }),
    );

    funs.push_layer();
    funs.define(
        "t.aron".to_string(),
        Rc::new(FunDec { name: "taron".to_string(), ..Default::default() }),
    );

    vec!["taron", "tìyaron", "tayaron"]
        .iter()
        .map(|name| (name, match_function(name, &funs)))
        .for_each(|(name, res)| assert!(res.is_some(), "Function not found: '{}'", name));
    funs.pop_layer();

    assert!(match_function("taron", &funs).is_none());
    funs.pop_layer();
}

#[test]
fn the_three_spellings_resolve_each_in_its_tense() {
    let mut funs = ScopeStack::<FunDec>::new();
    let dec = fun("hunt");
    funs.define("t.aron".to_string(), dec.clone());
    for (name, tense) in [
        ("taron", Tense::Present),
        ("t\u{ec}yaron", Tense::Imminent),
        ("tayaron", Tense::Future),
    ] {
        let (found, to) = match_function(name, &funs).expect(name);
        assert_eq!(found, tense);
        assert!(Rc::ptr_eq(&to, &dec));
    }
}

#[test]
fn other_spellings_do_not_resolve() {
    let mut funs = ScopeStack::<FunDec>::new();
    funs.define("t.aron".to_string(), fun("hunt"));
    for name in ["t.aron", "aron", "t", "tiyaron", "tayyaron", "taro", "tarona", "", "ttaron"] {
        assert!(match_function(name, &funs).is_none(), "{name} resolved");
    }
}

#[test]
fn key_without_delimiter_is_called_by_itself_only() {
    let mut funs = ScopeStack::<FunDec>::new();
    let dec = fun("kame");
    funs.define("kame".to_string(), dec.clone());
    let (tense, to) = match_function("kame", &funs).unwrap();
    assert_eq!(tense, Tense::Present);
    assert!(Rc::ptr_eq(&to, &dec));
    assert!(match_function("kayame", &funs).is_none());
    assert!(match_function("k\u{ec}yame", &funs).is_none());
}

#[test]
fn key_is_delimited_at_its_first_delimiter() {
    let mut funs = ScopeStack::<FunDec>::new();
    funs.define("a.b.c".to_string(), fun("abc"));
    assert_eq!(match_function("ab.c", &funs).unwrap().0, Tense::Present);
    assert_eq!(match_function("aayb.c", &funs).unwrap().0, Tense::Future);
    assert_eq!(match_function("a\u{ec}yb.c", &funs).unwrap().0, Tense::Imminent);
    assert!(match_function("abc", &funs).is_none());
    assert!(match_function("a.bc", &funs).is_none());
}

#[test]
fn innermost_layer_answers_first() {
    let mut funs = ScopeStack::<FunDec>::new();
    let outer = fun("outer");
    let inner = fun("inner");
    funs.define("ta.ron".to_string(), outer.clone());
    funs.push_layer();
    funs.define("t.aron".to_string(), inner.clone());
    assert!(Rc::ptr_eq(&match_function("taron", &funs).unwrap().1, &inner));
    // only the outer key is spelled by this name
    let (tense, to) = match_function("taayron", &funs).unwrap();
    assert_eq!(tense, Tense::Future);
    assert!(Rc::ptr_eq(&to, &outer));
    funs.pop_layer();
    assert!(Rc::ptr_eq(&match_function("taron", &funs).unwrap().1, &outer));
}

#[test]
fn within_one_layer_earlier_tense_then_earlier_delimiter_wins() {
    let mut funs = ScopeStack::<FunDec>::new();
    let plain = fun("plain");
    let early = fun("early");
    let late = fun("late");
    let future = fun("future");
    // "tayaron" is the future of "t.aron" and the present of the other three
    funs.define("t.aron".to_string(), future.clone());
    funs.define("taya.ron".to_string(), late.clone());
    funs.define("ta.yaron".to_string(), early.clone());
    let (tense, to) = match_function("tayaron", &funs).unwrap();
    assert_eq!(tense, Tense::Present);
    assert!(Rc::ptr_eq(&to, &early));
    funs.define("tayaron".to_string(), plain.clone());
    let (tense, to) = match_function("tayaron", &funs).unwrap();
    assert_eq!(tense, Tense::Present);
    assert!(Rc::ptr_eq(&to, &plain));
}

#[test]
fn nested_function_is_unresolvable_after_its_scope() {
    let mut funs = ScopeStack::<FunDec>::new();
    funs.push_layer();
    funs.define("t.aron".to_string(), fun("hunt"));
    funs.pop_layer();
    for name in ["taron", "t\u{ec}yaron", "tayaron"] {
        assert!(match_function(name, &funs).is_none());
    }
}

#[test]
fn shadowed_function_returns_when_the_layer_closes() {
    let mut funs = ScopeStack::<FunDec>::new();
    let outer = fun("outer");
    let inner = fun("inner");
    funs.define("t.aron".to_string(), outer.clone());
    funs.push_layer();
    funs.define("t.aron".to_string(), inner.clone());
    assert!(Rc::ptr_eq(&match_function("tayaron", &funs).unwrap().1, &inner));
    funs.pop_layer();
    assert!(Rc::ptr_eq(&match_function("tayaron", &funs).unwrap().1, &outer));
}

#[test]
fn read_key_gives_tense_and_delimiter_place() {
    let reading = read_key(&chars("t.aron"), &chars("tayaron")).unwrap();
    assert_eq!(reading.tense, Tense::Future);
    assert_eq!(reading.delimiter, 2);
    let reading = read_key(&chars("taron"), &chars("taron")).unwrap();
    assert_eq!(reading.tense, Tense::Present);
    assert_eq!(reading.delimiter, 0);
    assert!(read_key(&chars("taron"), &chars("tayaron")).is_none());
    let reading = read_key(&chars(".x"), &chars("x")).unwrap();
    assert_eq!(reading.delimiter, 1);
    let reading = read_key(&chars("x."), &chars("xay")).unwrap();
    assert_eq!(reading.tense, Tense::Future);
}

#[test]
fn conjugate_spells_each_tense() {
    let key = chars("t.aron");
    assert_eq!(conjugate(&key, 1, Tense::Present), chars("taron"));
    assert_eq!(conjugate(&key, 1, Tense::Imminent), chars("tìyaron"));
    assert_eq!(conjugate(&key, 1, Tense::Future), chars("tayaron"));
}

#[test]
fn helpers_on_characters() {
    assert_eq!(chars_of("tìyaron"), chars("tìyaron"));
    assert_eq!(chars_of(""), Vec::<char>::new());
    assert_eq!(find_delimiter(&chars("ab.c.d")), Some(2));
    assert_eq!(find_delimiter(&chars("abcd")), None);
    assert!(same_chars(&chars("abc"), &chars("abc")));
    assert!(!same_chars(&chars("abc"), &chars("abd")));
    assert!(!same_chars(&chars("abc"), &chars("ab")));
}
