use currency_catalog::model::{Currency, Price, Product, User};
use currency_catalog::storage::{ProductStorage, UserStorage};
use currency_catalog::Manager;

fn fresh_manager() -> Manager {
    Manager::with_storages(UserStorage::create_stub(), ProductStorage::create_stub())
}

fn user(id: u64, name: &str, currency: Currency) -> User {
    User { id, name: String::from(name), currency }
}

fn product(id: u64, name: &str, value: i64, currency: Currency) -> Product {
    Product { id, name: String::from(name), price: Price { value, currency } }
}

#[test]
fn get_user_finds_what_was_added() {
    let mut m = fresh_manager();
    assert!(m.add_user(user(1, "ada", Currency::Usd)));
    let got = m.get_user(1).unwrap();
    assert_eq!(got.id(), 1);
    assert_eq!(got.name, "ada");
    assert_eq!(got.currency, Currency::Usd);
    assert!(m.get_user(2).is_none());
}

#[test]
fn add_user_overwrites_an_existing_registration() {
    let mut m = fresh_manager();
    assert!(m.add_user(user(1, "ada", Currency::Usd)));
    assert!(m.add_user(user(1, "ada", Currency::Eur)));
    assert_eq!(m.get_user(1).unwrap().currency, Currency::Eur);
}

#[test]
fn get_products_for_a_missing_user_is_absent_not_empty() {
    let mut m = fresh_manager();
    assert!(m.add_product(product(10, "tea", 5000, Currency::Rub)));
    // No user 1: absence, even though products exist.
    assert!(m.get_products(1).is_none());
    // A registered user with an empty catalog gets an empty list instead.
    let mut empty = fresh_manager();
    assert!(empty.add_user(user(1, "ada", Currency::Usd)));
    let got = empty.get_products(1).unwrap();
    assert!(got.is_empty());
}

#[test]
fn get_products_converts_every_price_into_the_users_currency() {
    let mut m = fresh_manager();
    assert!(m.add_user(user(1, "ada", Currency::Usd)));
    assert!(m.add_product(product(10, "tea", 10000, Currency::Eur)));
    assert!(m.add_product(product(11, "jam", 5000, Currency::Rub)));
    let got = m.get_products(1).unwrap();
    assert_eq!(got.len(), 2);
    assert_eq!(got[0].id(), 10);
    assert_eq!(got[0].name, "tea");
    assert_eq!(got[0].price, Price { value: 9075, currency: Currency::Usd });
    assert_eq!(got[1].id(), 11);
    assert_eq!(got[1].price, Price { value: 56, currency: Currency::Usd });
}

#[test]
fn get_products_in_the_users_own_currency_keeps_quote_prices_exact() {
    let mut m = fresh_manager();
    assert!(m.add_user(user(1, "ada", Currency::Rub)));
    assert!(m.add_product(product(10, "tea", 5000, Currency::Rub)));
    let got = m.get_products(1).unwrap();
    assert_eq!(got[0].price, Price { value: 5000, currency: Currency::Rub });
}

#[test]
fn add_product_rejects_a_price_the_engine_cannot_convert() {
    let mut m = fresh_manager();
    assert!(m.add_user(user(1, "ada", Currency::Usd)));
    assert!(!m.add_product(product(10, "bad", -1, Currency::Eur)));
    assert!(!m.add_product(product(11, "huge", i64::MAX, Currency::Eur)));
    assert!(m.get_products(1).unwrap().is_empty());
}

#[test]
fn add_product_overwrites_an_existing_listing() {
    let mut m = fresh_manager();
    assert!(m.add_user(user(1, "ada", Currency::Rub)));
    assert!(m.add_product(product(10, "tea", 5000, Currency::Rub)));
    assert!(m.add_product(product(10, "tea", 7000, Currency::Rub)));
    let got = m.get_products(1).unwrap();
    assert_eq!(got.len(), 1);
    assert_eq!(got[0].price.value, 7000);
}

#[test]
fn user_storage_stores_and_loads() {
    let mut s = UserStorage::create_stub();
    assert!(s.load(1).is_none());
    assert!(s.store(1, user(1, "ada", Currency::Eur)));
    assert_eq!(s.load(1).unwrap().name, "ada");
    assert!(s.store(1, user(1, "bob", Currency::Eur)));
    assert_eq!(s.load(1).unwrap().name, "bob");
    assert!(s.load(2).is_none());
}

#[test]
fn product_storage_load_all_yields_in_insertion_order() {
    let mut s = ProductStorage::create_stub();
    assert!(s.store(5, product(5, "tea", 100, Currency::Rub)));
    assert!(s.store(3, product(3, "jam", 200, Currency::Rub)));
    assert!(s.store(9, product(9, "rye", 300, Currency::Rub)));
    let mut it = s.load_all().unwrap();
    assert_eq!(it.next().unwrap().id(), 5);
    assert_eq!(it.next().unwrap().id(), 3);
    assert_eq!(it.next().unwrap().id(), 9);
    assert!(it.next().is_none());
    assert!(it.next().is_none());
}

#[test]
fn product_ids_round_through_the_getter() {
    let p = product(42, "tea", 1, Currency::Rub);
    assert_eq!(p.id(), 42);
    let u = user(7, "ada", Currency::Eur);
    assert_eq!(u.id(), 7);
}
