use std::cmp::Ordering;

use sesters::amount::Amount;
use sesters::currency::Currency;
use sesters::price_in_text::{PriceTag, iso, ranked_matches};
use sesters::ranking::{PriceTagMatch, compare_amounts};

fn usd() -> Currency {
    Currency::new("USD")
}

fn eur() -> Currency {
    Currency::new("EUR")
}

fn btc() -> Currency {
    Currency::new("BTC")
}

fn value(a: Amount) -> f64 {
    a.units() as f64 / 10f64.powi(a.scale() as i32)
}

fn same_tag(found: Option<&PriceTag>, expected: &Option<(Currency, f64)>) -> bool {
    match (found, expected) {
        (None, None) => true,
        (Some(t), Some((c, v))) => t.currency() == c && value(t.amount()) == *v,
        _ => false,
    }
}

fn test_iso_usd_then_with_other(
    txt: &str,
    exp1_usd: &Option<(Currency, f64)>,
    exp2_eur: &Option<(Currency, f64)>,
    exp3_btc: &Option<(Currency, f64)>,
) {
    let exp = match (exp1_usd, exp2_eur, exp3_btc) {
        (Some(_), None, None) => exp1_usd.clone(),
        (None, Some(_), None) => exp2_eur.clone(),
        (None, None, Some(_)) => exp3_btc.clone(),
        (None, None, None) => None,
        _ => panic!("More than one value is Some"),
    };
    assert!(same_tag(iso(&[usd()], txt).first(), exp1_usd));
    assert!(same_tag(iso(&[eur()], txt).first(), exp2_eur));
    assert!(same_tag(iso(&[btc()], txt).first(), exp3_btc));
    assert!(same_tag(iso(&[usd(), eur(), btc()], txt).first(), &exp));
}

#[test]
fn iso_empty_string() {
    test_iso_usd_then_with_other(&format!(""), &None, &None, &None);
}

#[test]
fn iso_none() {
    test_iso_usd_then_with_other(&format!("13"), &None, &None, &None);
}

#[test]
fn iso_none_before() {
    test_iso_usd_then_with_other(&format!("OOO 13"), &None, &None, &None);
}

#[test]
fn iso_none_after() {
    test_iso_usd_then_with_other(&format!("13 OOO"), &None, &None, &None);
}

#[test]
fn iso_eur_before() {
    let currency_amount = Some((eur(), 15.));
    test_iso_usd_then_with_other("EUR 15", &None, &currency_amount, &None);
}

#[test]
fn iso_before() {
    let currency_amount = Some((usd(), 13.));
    test_iso_usd_then_with_other("USD 13", &currency_amount, &None, &None);
}

#[test]
fn iso_before_float() {
    let currency_amount = Some((usd(), 13.5));
    test_iso_usd_then_with_other("USD 13.5", &currency_amount, &None, &None);
}

#[test]
fn iso_before_null_amount() {
    let currency_amount = Some((usd(), 0.));
    test_iso_usd_then_with_other(&format!("USD 0"), &currency_amount, &None, &None);
}

#[test]
fn iso_before_negative_amount() {
    let currency_amount = Some((usd(), -12.));
    test_iso_usd_then_with_other(&format!("USD -12"), &currency_amount, &None, &None);
}

fn m(v: i64, c: &Currency, index: usize, before: bool) -> PriceTagMatch {
    PriceTagMatch::new(Amount::new(v, 0), c, index, before)
}

// The candidates below come in index order, and at each index those with the
// amount after the code first. Amount and code then break ties, so inside each
// such group only the ranking by index and side is asserted in order.
#[test]
fn price_tag_match_right_partial_order() {
    let (e, u, b) = (eur(), usd(), btc());
    let v = vec![
        m(1, &e, 0, true), m(1, &u, 0, true), m(3, &u, 0, true), m(3, &e, 0, true), m(-1, &e, 0, true), m(-1, &b, 0, true),
        m(1, &e, 0, false), m(1, &u, 0, false), m(3, &u, 0, false), m(3, &e, 0, false), m(-1, &e, 0, false), m(-1, &b, 0, false),
        m(1, &e, 1, true), m(1, &u, 1, true), m(3, &u, 1, true), m(3, &e, 1, true), m(-1, &e, 1, true), m(-1, &b, 1, true),
        m(1, &e, 1, false), m(1, &u, 1, false), m(3, &u, 1, false), m(3, &e, 1, false), m(-1, &e, 1, false), m(-1, &b, 1, false),
    ];
    for i in 0..v.len() - 1 {
        let same_group = v[i].index == v[i + 1].index && v[i].before == v[i + 1].before;
        assert!(same_group || v[i].compare(&v[i + 1]) == Ordering::Less);
    }
    for i in 0..v.len() {
        for j in 0..v.len() {
            let forward = v[i].compare(&v[j]);
            assert_eq!(forward.reverse(), v[j].compare(&v[i]));
            assert_eq!(forward == Ordering::Equal, i == j);
            for k in 0..v.len() {
                if forward != Ordering::Greater && v[j].compare(&v[k]) != Ordering::Greater {
                    assert!(v[i].compare(&v[k]) != Ordering::Greater);
                }
            }
        }
    }
}

#[test]
fn ranking_steps_in_order() {
    let (e, u) = (eur(), usd());
    assert_eq!(m(9, &u, 0, false).compare(&m(1, &e, 1, true)), Ordering::Less);
    assert_eq!(m(9, &u, 2, true).compare(&m(1, &e, 2, false)), Ordering::Less);
    assert_eq!(m(1, &u, 2, true).compare(&m(3, &e, 2, true)), Ordering::Less);
    assert_eq!(PriceTagMatch::new(Amount::new(15, 1), &u, 2, true).compare(&m(2, &u, 2, true)), Ordering::Less);
    assert_eq!(PriceTagMatch::new(Amount::new(10, 1), &u, 2, true).compare(&m(1, &u, 2, true)), Ordering::Greater);
    assert_eq!(PriceTagMatch::new(Amount::new(-25, 1), &u, 2, true).compare(&m(-3, &u, 2, true)), Ordering::Greater);
    assert_eq!(m(1, &e, 2, true).compare(&m(1, &u, 2, true)), Ordering::Less);
    assert_eq!(m(1, &e, 2, true).compare(&m(1, &e, 2, true)), Ordering::Equal);
}

#[test]
fn amount_after_code_reads_back() {
    let tags = iso(&[usd()], "13 USD");
    assert_eq!(tags.len(), 1);
    assert_eq!(tags[0], PriceTag::new(&usd(), Amount::new(13, 0)));
}

#[test]
fn whole_words_only() {
    assert!(iso(&[usd()], "USDT 13").is_empty());
    assert!(iso(&[usd()], "XUSD 13").is_empty());
    assert!(iso(&[usd()], "USD13").is_empty());
    assert!(iso(&[usd()], "usd 13").is_empty());
}

#[test]
fn malformed_numbers_are_skipped() {
    assert!(iso(&[usd()], "USD 1.2.3").is_empty());
    assert!(iso(&[usd()], "USD 13.").is_empty());
    assert!(iso(&[usd()], "USD .5").is_empty());
    assert!(iso(&[usd()], "USD 1,5").is_empty());
    assert!(iso(&[usd()], "USD -").is_empty());
    assert!(iso(&[usd()], "USD 99999999999999999999").is_empty());
}

#[test]
fn literal_edges() {
    assert_eq!(iso(&[usd()], "USD +7")[0].amount(), Amount::new(7, 0));
    assert_eq!(iso(&[usd()], "USD 0.05")[0].amount(), Amount::new(5, 2));
    assert_eq!(iso(&[usd()], "USD 9223372036854775807")[0].amount(), Amount::new(i64::MAX, 0));
    assert_eq!(iso(&[usd()], "USD -9223372036854775807")[0].amount(), Amount::new(-i64::MAX, 0));
    assert_eq!(iso(&[usd()], "  USD\t\t42  ")[0].amount(), Amount::new(42, 0));
}

#[test]
fn several_matches_are_ranked() {
    let (u, e) = (usd(), eur());
    let ms = ranked_matches(&[u.clone(), e.clone()], "USD 5 EUR 7");
    assert_eq!(ms, vec![
        m(5, &u, 0, true),
        m(7, &e, 6, true),
        m(5, &e, 6, false),
    ]);
    let tags = iso(&[e.clone(), u.clone()], "USD 5 EUR 7");
    assert_eq!(tags[0], PriceTag::new(&u, Amount::new(5, 0)));
    assert_eq!(tags.len(), 3);
}

#[test]
fn repeated_candidates_give_each_tag_once() {
    let tags = iso(&[usd(), usd()], "USD 3");
    assert_eq!(tags, vec![PriceTag::new(&usd(), Amount::new(3, 0))]);
}

#[test]
fn candidate_set_consistency() {
    for txt in ["EUR 15", "USD 13", "BTC -2.5", "nothing here"] {
        let all = iso(&[usd(), eur(), btc()], txt);
        let single: Vec<PriceTag> = [usd(), eur(), btc()]
            .iter()
            .flat_map(|c| iso(&[c.clone()], txt))
            .collect();
        assert_eq!(all, single);
    }
}

#[test]
fn amounts_compare_by_value() {
    assert_eq!(compare_amounts(Amount::new(135, 1), Amount::new(2, 0)), Ordering::Greater);
    assert_eq!(compare_amounts(Amount::new(15, 1), Amount::new(2, 0)), Ordering::Less);
    assert_eq!(compare_amounts(Amount::new(150, 2), Amount::new(15, 1)), Ordering::Equal);
    assert_eq!(compare_amounts(Amount::new(-1, 0), Amount::new(1, 30)), Ordering::Less);
    assert_eq!(compare_amounts(Amount::new(i64::MAX, 0), Amount::new(1, 0)), Ordering::Greater);
    assert_eq!(compare_amounts(Amount::new(1, 0), Amount::new(i64::MAX, 18)), Ordering::Less);
    assert_eq!(compare_amounts(Amount::new(i64::MIN, 0), Amount::new(-1, 40)), Ordering::Less);
}
