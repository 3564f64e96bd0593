use ai_allowance::amount::Amount;
use ai_allowance::decimal::parse_amount;

fn amount(number: f64) -> Amount {
    Amount { bits: number.to_bits() }
}

fn number(amount: Amount) -> f64 {
    f64::from_bits(amount.bits)
}

/// Numbers that follow one another without an evident pattern.
struct Stream {
    state: u64,
}

impl Stream {
    fn next(&mut self) -> u64 {
        self.state ^= self.state << 13;
        self.state ^= self.state >> 7;
        self.state ^= self.state << 17;
        self.state
    }

    /// A double whose exponent is within `spread` of that of one.
    fn near_one(&mut self, spread: u64) -> f64 {
        let bits = self.next();
        let exponent = 1023 - spread + self.next() % (2 * spread + 1);
        f64::from_bits((bits & 0x800f_ffff_ffff_ffff) | (exponent << 52))
    }
}

fn corner_cases() -> Vec<f64> {
    vec![
        0.0,
        -0.0,
        1.0,
        -1.0,
        0.1,
        0.2,
        0.3,
        100.0,
        1e-300,
        5e-324,
        -5e-324,
        2.2250738585072014e-308,
        2.225073858507201e-308,
        f64::EPSILON,
        f64::MAX,
        f64::MIN,
        9007199254740991.0,
        9007199254740992.0,
        9007199254740994.0,
        200000.0,
        199498.6,
        f64::INFINITY,
        f64::NEG_INFINITY,
        f64::NAN,
    ]
}

fn same(found: Amount, expected: f64) -> bool {
    if expected.is_nan() {
        number(found).is_nan()
    } else {
        found.bits == expected.to_bits()
    }
}

fn agree(a: f64, b: f64) {
    assert!(same(amount(a).plus(amount(b)), a + b), "{a:e} + {b:e}");
    assert!(same(amount(a).minus(amount(b)), a - b), "{a:e} - {b:e}");
    assert!(same(amount(a).hundredth(), a / 100.0), "{a:e} / 100");
    assert!(same(amount(a).negated(), -a), "-{a:e}");
    assert!(same(amount(a).abs(), a.abs()), "|{a:e}|");
    assert_eq!(amount(a).is_less(amount(b)), a < b, "{a:e} < {b:e}");
    assert_eq!(amount(a).is_finite(), a.is_finite(), "{a:e}");
    if b > 0.0 {
        assert!(same(amount(a).clamp(amount(0.0), amount(b)), a.clamp(0.0, b)), "{a:e} in {b:e}");
    }
}

#[test]
fn arithmetic_agrees_with_the_machine_on_corner_cases() {
    for a in corner_cases() {
        for b in corner_cases() {
            agree(a, b);
        }
    }
}

#[test]
fn arithmetic_agrees_with_the_machine_on_arbitrary_bits() {
    let mut stream = Stream { state: 0x9e37_79b9_7f4a_7c15 };
    for _ in 0..4000 {
        let a = f64::from_bits(stream.next());
        let b = f64::from_bits(stream.next());
        agree(a, b);
    }
}

#[test]
fn arithmetic_agrees_with_the_machine_on_close_numbers() {
    let mut stream = Stream { state: 0x0123_4567_89ab_cdef };
    for spread in [1, 3, 30, 60] {
        for _ in 0..1500 {
            let a = stream.near_one(spread);
            let b = stream.near_one(spread);
            agree(a, b);
        }
    }
}

#[test]
fn totals_agree_with_the_machine() {
    let none: Vec<f64> = vec![];
    assert_eq!(Amount::total_of(&vec![]).bits, none.iter().sum::<f64>().to_bits());
    let mut stream = Stream { state: 77 };
    for length in 1..40 {
        let numbers: Vec<f64> = (0..length).map(|_| stream.near_one(20)).collect();
        let amounts: Vec<Amount> = numbers.iter().map(|n| amount(*n)).collect();
        assert_eq!(Amount::total_of(&amounts).bits, numbers.iter().sum::<f64>().to_bits());
    }
    assert_eq!(number(Amount::total_of(&vec![amount(0.1), amount(0.2), amount(0.3)])), 0.6000000000000001);
}

#[test]
fn a_hundredth_of_cents_is_a_dollar_amount() {
    assert_eq!(number(amount(123.45).hundredth()), 1.2345);
    assert_eq!(number(amount(1.0).hundredth()), 0.01);
}

#[test]
fn addition_does_not_depend_on_the_order_of_its_operands() {
    let a = amount(0.1);
    let b = amount(1e16);
    assert_eq!(a.plus(b), b.plus(a));
}

#[test]
fn what_is_left_of_an_allowance_stays_within_it() {
    let limit = amount(200000.0);
    let left = amount(199498.6);
    let used = limit.minus(left);
    assert!(!used.is_less(amount(0.0)));
    assert!(!limit.is_less(used));
    assert_eq!(number(used), 200000.0 - 199498.6);
}

fn read(text: &str) -> Option<f64> {
    parse_amount(text).map(number)
}

fn expected(text: &str) -> Option<f64> {
    text.parse::<f64>().ok().filter(|n| n.is_finite())
}

#[test]
fn numerals_are_read_as_the_standard_library_reads_them() {
    let texts = [
        "", "+", "-", ".", "1", "-1", "+1", "1.", ".5", "-.5e3", "1e", "1e+", "1e5", "1E5", "1e-5",
        "1e+5", " 1", "1 ", "1_000", "0x10", "1.5.2", "e5", ".e5", "1e5.5", "NaN", "nan", "inf",
        "-inf", "infinity", "Infinity", "+infinity", "12abc", "00012", "0", "-0", "-0.0", "0e999999",
        "1e400", "-1e400", "1e-400", "1e99999999999999999999999", "1e-99999999999999999999999",
        "0.000000000000000000000000000001e30", "123.45", "199498.6", "9007199254740993",
        "9007199254740992.5", "1.7976931348623157e308", "1.7976931348623159e308",
        "1.797693134862315807e308", "4.9e-324", "2.4703282292062327e-324",
        "2.4703282292062328e-324", "2.2250738585072011e-308", "0.1", "0.3", "3,5", "--1", "+-1",
        "1e--5", "٣", "１", "1e０",
    ];
    for text in texts {
        assert_eq!(read(text).map(f64::to_bits), expected(text).map(f64::to_bits), "{text:?}");
    }
}

#[test]
fn numerals_of_arbitrary_doubles_are_read_back() {
    let mut stream = Stream { state: 424242 };
    for _ in 0..600 {
        let n = f64::from_bits(stream.next());
        if !n.is_finite() {
            continue;
        }
        let short = format!("{n:e}");
        assert_eq!(read(&short).map(f64::to_bits), Some(n.to_bits()), "{short}");
        let near = format!("{:.3e}", n);
        assert_eq!(read(&near).map(f64::to_bits), expected(&near).map(f64::to_bits), "{near}");
    }
    for _ in 0..600 {
        let n = stream.near_one(40);
        let plain = format!("{n}");
        assert_eq!(read(&plain).map(f64::to_bits), Some(n.to_bits()), "{plain}");
    }
}

#[test]
fn numerals_that_lie_halfway_go_to_the_even_neighbour() {
    assert_eq!(read("9007199254740993"), Some(9007199254740992.0));
    assert_eq!(read("9007199254740995"), Some(9007199254740996.0));
    assert_eq!(read("9007199254740993.0000000000000000000001"), Some(9007199254740994.0));
}

#[test]
fn whole_numbers_up_to_the_limit_are_read_exactly() {
    for n in [0u64, 7, 10, 1500, 200000, 9007199254740991, 9007199254740992] {
        assert_eq!(read(&n.to_string()), Some(n as f64));
        assert_eq!(read(&format!("-{n}")), Some(-(n as f64)));
    }
}
