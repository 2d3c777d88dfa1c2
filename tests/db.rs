use std::time::{SystemTime, UNIX_EPOCH};

use sesters::amount::Amount;
use sesters::currency::Currency;
use sesters::db::{CacheError, Db, SqlArg, StoredRow, classify_rows, delete_args_of, rate_from_row, select_args_of, upsert_args_of};
use sesters::rate::{Rate, partition_by_expiry};

const WEEK: i64 = 7 * 24 * 3600;

fn now() -> i64 {
    SystemTime::now().duration_since(UNIX_EPOCH).unwrap().as_secs() as i64
}

fn jpy() -> Currency {
    Currency::new("JPY")
}

fn btc() -> Currency {
    Currency::new("BTC")
}

fn chf() -> Currency {
    Currency::new("CHF")
}

fn eur() -> Currency {
    Currency::new("EUR")
}

// Rate with cache_until == None
fn rate_cun() -> Rate {
    Rate::parity(&eur())
}

// Rate with cache_until in the future
fn rate_cus_future() -> Rate {
    let t = now();
    Rate::new(&jpy(), &btc(), t, Amount::new(2777277, 0), "kraken", Some(t + 3 * WEEK))
}

// Rate with cache_until in the past (expired rate)
fn rate_cus_past() -> Rate {
    let t = now();
    Rate::new(&chf(), &eur(), t - 16 * WEEK, Amount::new(9, 1), "xe", Some(t - 15 * WEEK))
}

#[test]
fn migrations_test() {
    assert!(Db::new_in_memory().is_ok());
}

#[test]
fn rate_convert_back_forth_test() {
    for rate in vec![rate_cus_future(), rate_cus_past()] {
        let mut db = Db::new_in_memory().unwrap();
        assert!(db.set_rate(&rate).is_ok());

        let (mut retrieved_fresh, mut retrieved_stale) = db
            .get_rates(rate.src(), rate.dst(), rate.provider())
            .unwrap();
        let mut retrieved_rates = Vec::new();
        retrieved_rates.append(&mut retrieved_fresh);
        retrieved_rates.append(&mut retrieved_stale);

        assert_eq!(retrieved_rates.len(), 1);
        assert_eq!(rate, retrieved_rates[0]);
    }
}

#[test]
fn cache_until_none_rejected_test() {
    let mut db = Db::new_in_memory().unwrap();
    let t = now();
    let rate = Rate::new(&chf(), &eur(), t, Amount::new(9, 1), "xe", None);
    assert_eq!(db.set_rate(&rate), Err(CacheError::InvalidRate));
    let (fresh, stale) = db.get_rates(&chf(), &eur(), "xe").unwrap();
    assert!(fresh.is_empty());
    assert!(stale.is_empty());
}

#[test]
fn outdated_uptodate_test() {
    for rate in vec![rate_cun(), rate_cus_future(), rate_cus_past()] {
        let mut db = Db::new_in_memory().unwrap();
        assert!(db.set_rate(&rate).is_ok());
        let (rates_uptodate, rates_outdated) = db
            .get_rates(rate.src(), rate.dst(), rate.provider())
            .unwrap();

        for ru in rates_uptodate {
            assert!(ru.uptodate(now()))
        }
        for ro in rates_outdated {
            assert!(!ro.uptodate(now()))
        }
    }
}

#[test]
fn init_do_test() {
    let _ = Db::new(":memory:").unwrap();
}

#[test]
fn fresh_and_stale_land_in_their_buckets() {
    let mut db = Db::new_in_memory().unwrap();
    let future = rate_cus_future();
    let past = rate_cus_past();
    db.set_rate(&future).unwrap();
    db.set_rate(&past).unwrap();
    let (fresh, stale) = db.get_rates(&jpy(), &btc(), "kraken").unwrap();
    assert_eq!(fresh, vec![future]);
    assert!(stale.is_empty());
    let (fresh, stale) = db.get_rates(&chf(), &eur(), "xe").unwrap();
    assert!(fresh.is_empty());
    assert_eq!(stale, vec![past]);
}

#[test]
fn same_currency_gives_parity() {
    let mut db = Db::new_in_memory().unwrap();
    let (fresh, stale) = db.get_rates(&eur(), &eur(), "any").unwrap();
    assert_eq!(fresh.len(), 1);
    assert!(stale.is_empty());
    assert_eq!(fresh[0].rate, Amount::new(1, 0));
    assert_eq!(fresh[0], Rate::parity(&eur()));
    assert_eq!(fresh[0].cache_until(), None);
}

#[test]
fn same_currency_is_not_stored() {
    let mut db = Db::new_in_memory().unwrap();
    let t = now();
    let rate = Rate::new(&eur(), &eur(), t, Amount::new(2, 0), "xe", Some(t + WEEK));
    assert_eq!(db.set_rate(&rate), Ok(()));
    let (fresh, stale) = db.get_rates(&eur(), &eur(), "xe").unwrap();
    assert_eq!(fresh, vec![Rate::parity(&eur())]);
    assert!(stale.is_empty());
}

#[test]
fn upsert_replaces_the_whole_row() {
    let mut db = Db::new_in_memory().unwrap();
    let t = now();
    let first = Rate::new(&chf(), &eur(), t - WEEK, Amount::new(9, 1), "xe", Some(t - 1));
    let second = Rate::new(&chf(), &eur(), t, Amount::new(95, 2), "xe", Some(t + WEEK));
    db.set_rate(&first).unwrap();
    db.set_rate(&second).unwrap();
    let (fresh, stale) = db.get_rates(&chf(), &eur(), "xe").unwrap();
    assert_eq!(fresh, vec![second]);
    assert!(stale.is_empty());
}

#[test]
fn providers_are_kept_apart() {
    let mut db = Db::new_in_memory().unwrap();
    let t = now();
    let a = Rate::new(&chf(), &eur(), t, Amount::new(9, 1), "xe", Some(t + WEEK));
    let b = Rate::new(&chf(), &eur(), t, Amount::new(91, 2), "kraken", Some(t + WEEK));
    db.set_rate(&a).unwrap();
    db.set_rate(&b).unwrap();
    let (fresh, _) = db.get_rates(&chf(), &eur(), "xe").unwrap();
    assert_eq!(fresh, vec![a]);
    let (fresh, _) = db.get_rates(&chf(), &eur(), "kraken").unwrap();
    assert_eq!(fresh, vec![b]);
}

#[test]
fn del_rate_without_row_succeeds() {
    let mut db = Db::new_in_memory().unwrap();
    assert_eq!(db.del_rate(&rate_cus_past()), Ok(()));
    assert_eq!(db.del_rate(&rate_cus_past()), Ok(()));
}

#[test]
fn del_rate_removes_every_provider() {
    let mut db = Db::new_in_memory().unwrap();
    let t = now();
    let a = Rate::new(&chf(), &eur(), t, Amount::new(9, 1), "xe", Some(t + WEEK));
    let b = Rate::new(&chf(), &eur(), t, Amount::new(91, 2), "kraken", Some(t + WEEK));
    db.set_rate(&a).unwrap();
    db.set_rate(&b).unwrap();
    db.del_rate(&a).unwrap();
    let (fresh, stale) = db.get_rates(&chf(), &eur(), "kraken").unwrap();
    assert!(fresh.is_empty() && stale.is_empty());
}

fn row(scale: i64, until: Option<i64>) -> StoredRow {
    StoredRow {
        src: String::from("CHF"),
        dst: String::from("EUR"),
        date: 10,
        units: 9,
        scale,
        provider: String::from("xe"),
        cache_until: until,
    }
}

#[test]
fn partition_by_expiry_splits_at_now() {
    let at = |u: Option<i64>| Rate::new(&chf(), &eur(), 0, Amount::new(1, 0), "xe", u);
    let rates = vec![at(Some(101)), at(Some(100)), at(None), at(Some(99)), at(Some(200))];
    let (fresh, stale) = partition_by_expiry(rates, 100);
    assert_eq!(fresh, vec![at(Some(101)), at(Some(200))]);
    assert_eq!(stale, vec![at(Some(100)), at(None), at(Some(99))]);
}

#[test]
fn rows_read_back_as_rates() {
    let r = rate_from_row(&row(1, Some(5))).unwrap();
    assert_eq!(r, Rate::new(&chf(), &eur(), 10, Amount::new(9, 1), "xe", Some(5)));
    assert_eq!(rate_from_row(&row(-1, Some(5))), Err(CacheError::Storage));
    let (fresh, stale) = classify_rows(vec![row(1, Some(5)), row(0, Some(50))], 20).unwrap();
    assert_eq!(fresh.len(), 1);
    assert_eq!(fresh[0].cache_until(), Some(50));
    assert_eq!(stale.len(), 1);
    assert_eq!(classify_rows(vec![row(1, Some(5)), row(-3, None)], 20), Err(CacheError::Storage));
}

#[test]
fn upsert_args_need_an_expiry() {
    let t = now();
    let rate = Rate::new(&chf(), &eur(), t, Amount::new(9, 1), "xe", None);
    assert!(upsert_args_of(&rate).is_none());
    assert_eq!(upsert_args_of(&rate_cus_past()).map(|a| a.len()), Some(7));
}

#[test]
fn del_rate_keeps_the_reverse_direction() {
    let mut db = Db::new_in_memory().unwrap();
    let t = now();
    let a = Rate::new(&chf(), &eur(), t, Amount::new(9, 1), "xe", Some(t + WEEK));
    let b = Rate::new(&chf(), &eur(), t, Amount::new(91, 2), "kraken", Some(t + WEEK));
    let c = Rate::new(&eur(), &chf(), t, Amount::new(11, 1), "xe", Some(t + WEEK));
    db.set_rate(&a).unwrap();
    db.set_rate(&b).unwrap();
    db.set_rate(&c).unwrap();
    assert_eq!(db.del_rate(&a), Ok(()));
    for p in ["xe", "kraken"] {
        let (fresh, stale) = db.get_rates(&chf(), &eur(), p).unwrap();
        assert!(fresh.is_empty() && stale.is_empty());
    }
    let (fresh, _) = db.get_rates(&eur(), &chf(), "xe").unwrap();
    assert_eq!(fresh, vec![c]);
}

#[test]
fn set_then_del_leaves_nothing() {
    let mut db = Db::new_in_memory().unwrap();
    let rate = rate_cus_future();
    assert_eq!(db.set_rate(&rate), Ok(()));
    assert_eq!(db.del_rate(&rate), Ok(()));
    let (fresh, stale) = db.get_rates(rate.src(), rate.dst(), rate.provider()).unwrap();
    assert!(fresh.is_empty() && stale.is_empty());
}

#[test]
fn statement_parameters() {
    let args = select_args_of(&chf(), &eur(), "xe");
    assert_eq!(args, vec![String::from("CHF"), String::from("EUR"), String::from("xe")]);
    assert_eq!(
        delete_args_of(&rate_cus_past()),
        vec![SqlArg::Text(String::from("CHF")), SqlArg::Text(String::from("EUR"))]
    );
    let rate = Rate::new(&chf(), &eur(), 3, Amount::new(95, 2), "xe", Some(8));
    assert_eq!(
        upsert_args_of(&rate),
        Some(vec![
            SqlArg::Text(String::from("CHF")),
            SqlArg::Text(String::from("EUR")),
            SqlArg::Int(3),
            SqlArg::Int(95),
            SqlArg::Int(2),
            SqlArg::Text(String::from("xe")),
            SqlArg::Int(8),
        ])
    );
}
