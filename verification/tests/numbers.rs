use blast::audio_processing::blast_rand::X128P;
use blast::audio_processing::blast_time::clock::{advance, current, Clock};
use blast::audio_processing::blast_time::sample_rate;
use blast::audio_processing::blast_time::sample_rate::SampleRate;
use blast::audio_processing::blast_time::{convert_interval, TempoMode, TempoState, TempoUnit};
use blast::audio_processing::fixed::{Fixed, ONE};
use blast::audio_processing::text::{chars_of, parse_fixed, parse_usize, split, to_string, words};

fn fx(whole: i64) -> Fixed {
    Fixed { raw: whole * ONE }
}

fn text(s: &str) -> Vec<char> {
    s.chars().collect()
}

#[test]
fn generator_expands_its_seed() {
    let g = X128P::new(42);
    assert_eq!(g.s0, 0xbdd732262feb6e95);
    assert_eq!(g.s1, 0x28efe333b266f103);
    let z = X128P::new(0);
    assert_eq!(z.s0, 0xe220a8397b1dcdaf);
    assert_eq!(z.s1, 0x6e789e6aa1b965f4);
}

#[test]
fn generator_draws_known_words() {
    let mut g = X128P::new(42);
    assert_eq!(g.next_u64(), 0xe6c71559e2525f98);
    assert_eq!(g.next_u64(), 0xc47d57593d0cfb7a);
    assert_eq!(g.next_u64(), 0x39de93182b828cf8);
    let mut z = X128P::new(0);
    assert_eq!(z.next_u64(), 0x509946a41cd733a3);
}

#[test]
fn generator_draws_in_range() {
    let mut g = X128P::new(42);
    let drawn: Vec<i64> = (0..8).map(|_| g.next_i64_range(0, 100)).collect();
    assert_eq!(drawn, vec![90, 76, 22, 49, 68, 29, 29, 0]);
    let mut h = X128P::new(7);
    for _ in 0..1000 {
        let v = h.next_i64_range(-5, 5);
        assert!(-5 <= v && v < 5);
    }
    assert_eq!(h.next_i64_range(3, 3), 3);
}

#[test]
fn generator_range_with_bounds_swapped() {
    let mut g = X128P::new(42);
    // the range starts at the first bound and is as wide as the two are apart
    let v = g.next_i64_range(100, 0);
    assert_eq!(v, 190);
}

#[test]
fn generator_mantissa_is_top_of_word() {
    let mut g = X128P::new(42);
    assert_eq!(g.next_mantissa(), 8119767394961995);
    assert_eq!(X128P::rotl(1, 55), 1u64 << 55);
    assert_eq!(X128P::rotl(0x8000_0000_0000_0000, 1), 1);
}

#[test]
fn fixed_point_parts() {
    let x = Fixed { raw: 3 * ONE + ONE / 2 };
    assert_eq!(x.floor(), 3);
    assert_eq!(x.frac(), ONE / 2);
    assert_eq!(x.trunc(), 3);
    let y = Fixed { raw: -(3 * ONE + ONE / 2) };
    assert_eq!(y.floor(), -4);
    assert_eq!(y.frac(), ONE / 2);
    assert_eq!(y.trunc(), -3);
    let z = Fixed { raw: -ONE };
    assert_eq!(z.floor(), -1);
    assert_eq!(z.frac(), 0);
    assert_eq!(z.trunc(), -1);
    assert_eq!(Fixed { raw: i64::MIN }.floor(), i64::MIN / ONE);
    assert_eq!(Fixed { raw: -1 }.trunc(), 0);
    assert_eq!(Fixed { raw: -1 }.floor(), -1);
}

#[test]
fn fixed_point_sums_saturate() {
    assert_eq!(fx(1).saturating_add(fx(2)), fx(3));
    assert_eq!(Fixed { raw: i64::MAX }.saturating_add(fx(1)).raw, i64::MAX);
    assert_eq!(Fixed { raw: i64::MIN }.saturating_add(fx(-1)).raw, i64::MIN);
    assert_eq!(Fixed::from_usize(11999), fx(11999));
    assert_eq!(Fixed::from_usize(usize::MAX).raw, i64::MAX);
}

#[test]
fn fixed_point_numbers_are_read() {
    assert_eq!(parse_fixed(&text("120")), Some(fx(120)));
    assert_eq!(parse_fixed(&text("-1.0")), Some(fx(-1)));
    assert_eq!(parse_fixed(&text("+2.5")), Some(Fixed { raw: 2 * ONE + ONE / 2 }));
    assert_eq!(parse_fixed(&text(".5")), Some(Fixed { raw: ONE / 2 }));
    assert_eq!(parse_fixed(&text("5.")), Some(fx(5)));
    assert_eq!(parse_fixed(&text("0.1")), Some(Fixed { raw: 6553 }));
    assert_eq!(parse_fixed(&text("0.25000000000000")), Some(Fixed { raw: ONE / 4 }));
    assert_eq!(parse_fixed(&text("")), None);
    assert_eq!(parse_fixed(&text("-")), None);
    assert_eq!(parse_fixed(&text(".")), None);
    assert_eq!(parse_fixed(&text("1e3")), None);
    assert_eq!(parse_fixed(&text("1.2.3")), None);
    assert_eq!(parse_fixed(&text("12a")), None);
    assert_eq!(parse_fixed(&text("0.1234567890x")), None);
    assert_eq!(parse_fixed(&text("140737488355327")), Some(fx(140737488355327)));
    assert_eq!(parse_fixed(&text("140737488355328")), None);
}

#[test]
fn whole_numbers_are_read() {
    assert_eq!(parse_usize(&text("4")), Some(4));
    assert_eq!(parse_usize(&text("+16")), Some(16));
    assert_eq!(parse_usize(&text("007")), Some(7));
    assert_eq!(parse_usize(&text("")), None);
    assert_eq!(parse_usize(&text("+")), None);
    assert_eq!(parse_usize(&text("-4")), None);
    assert_eq!(parse_usize(&text("4.0")), None);
    assert_eq!(parse_usize(&text("99999999999999999999999999")), None);
}

#[test]
fn lines_are_split() {
    assert_eq!(words(&text("a\u{a0}b\u{2009}c\u{b}\u{c}d\u{85}e\u{3000}")), vec![
        text("a"),
        text("b"),
        text("c"),
        text("d"),
        text("e")
    ]);
    assert_eq!(words(&text("a\u{200b}b")), vec![text("a\u{200b}b")]);
    let pieces = split(&text("a,,b"), ',');
    assert_eq!(pieces, vec![text("a"), text(""), text("b")]);
    assert_eq!(split(&text(""), ','), vec![text("")]);
    assert_eq!(split(&text("kick"), '.'), vec![text("kick")]);
    assert_eq!(split(&text("band.kick"), '.'), vec![text("band"), text("kick")]);
    assert_eq!(words(&text("  load   kick -t  b:120 ")), vec![
        text("load"),
        text("kick"),
        text("-t"),
        text("b:120")
    ]);
    assert_eq!(words(&text("   ")), Vec::<Vec<char>>::new());
    assert_eq!(chars_of("häll"), text("häll"));
    assert_eq!(to_string(&text("kick")), "kick".to_string());
}

#[test]
fn intervals_convert_to_samples() {
    // samples stay, milliseconds are rate * interval / 1000, beats per
    // minute are rate * 60 / interval
    assert_eq!(convert_interval(TempoUnit::Samples, fx(441), 48000), fx(441));
    assert_eq!(convert_interval(TempoUnit::Millis, fx(500), 48000), fx(24000));
    assert_eq!(convert_interval(TempoUnit::Bpm, fx(120), 48000), fx(24000));
    assert_eq!(convert_interval(TempoUnit::Bpm, fx(60), 44100), fx(44100));
    assert_eq!(
        convert_interval(TempoUnit::Millis, Fixed { raw: ONE / 2 }, 48000),
        fx(24)
    );
    // kept positive
    assert_eq!(convert_interval(TempoUnit::Millis, Fixed { raw: 1 }, 1).raw, 1);
}

#[test]
fn beats_per_minute_convert_back() {
    for bpm in [60, 75, 90, 97, 120, 125, 130, 150, 240, 999, 1697] {
        let samples = convert_interval(TempoUnit::Bpm, fx(bpm), 48000);
        assert_eq!(convert_interval(TempoUnit::Bpm, samples, 48000), fx(bpm));
    }
    let odd = Fixed { raw: 133 * ONE + 21845 };
    let samples = convert_interval(TempoUnit::Bpm, odd, 44100);
    assert_eq!(convert_interval(TempoUnit::Bpm, samples, 44100), odd);
}

#[test]
fn fast_tempi_convert_back_closely() {
    // up to 48000 * 60 / 256 beats per minute the way back is off by less
    // than one part in 2^24, and beyond that by less than the bound
    let k: i128 = 48000 * 60 * (1i128 << 32);
    for bpm in [1698, 2000, 5000, 11249, 11250, 100000, 1000000] {
        let b = fx(bpm);
        let samples = convert_interval(TempoUnit::Bpm, b, 48000);
        let back = convert_interval(TempoUnit::Bpm, samples, 48000);
        assert!(back.raw >= b.raw);
        let off = (back.raw - b.raw) as i128;
        assert!(off * (k - b.raw as i128) < (b.raw as i128) * (b.raw as i128));
        if bpm <= 11250 {
            assert!(off * (1 << 24) < b.raw as i128);
        }
    }
}

#[test]
fn tempo_counts_periods() {
    let mut t = TempoState::new();
    assert_eq!(t.mode, TempoMode::TBD);
    assert_eq!(t.unit, TempoUnit::Samples);
    assert_eq!(t.interval.raw, 0);
    assert!(!t.active);
    t.init(TempoMode::Context, TempoUnit::Bpm, fx(120), 48000);
    assert_eq!(t.interval, fx(24000));
    assert_eq!(t.current(), fx(0));
    for _ in 0..24000 {
        t.update(1);
    }
    assert_eq!(t.current, 24000);
    assert_eq!(t.current(), fx(1));
    t.update(12000);
    assert_eq!(t.current(), Fixed { raw: ONE + ONE / 2 });
    t.reset();
    assert_eq!(t.current, 0);
}

#[test]
fn tempo_counter_does_not_wrap() {
    let mut t = TempoState::new();
    t.init(TempoMode::Voice, TempoUnit::Samples, fx(1), 48000);
    t.update(u64::MAX);
    t.update(5);
    assert_eq!(t.current, u64::MAX);
    assert_eq!(t.current().raw, i64::MAX);
}

#[test]
fn tempo_switches() {
    let mut t = TempoState::new();
    t.init(TempoMode::Group, TempoUnit::Samples, fx(10), 48000);
    t.update(7);
    t.pause();
    assert!(!t.active);
    assert_eq!(t.current, 7);
    t.resume();
    assert!(t.active);
    assert_eq!(t.current, 7);
    t.stop();
    assert!(!t.active);
    assert_eq!(t.current, 0);
    t.update(3);
    t.start();
    assert!(t.active);
    assert_eq!(t.current, 0);
    t.set_interval(fx(20), 48000);
    assert_eq!(t.interval, fx(20));
}

#[test]
fn rate_and_clock_hold_what_they_are_given() {
    let mut rate = SampleRate::new();
    assert_eq!(sample_rate::get(&rate), 0);
    sample_rate::set(&mut rate, 48000);
    assert_eq!(sample_rate::get(&rate), 48000);
    let mut clock = Clock::new();
    advance(&mut clock, 128);
    advance(&mut clock, 1);
    assert_eq!(current(&clock), 129);
    advance(&mut clock, u64::MAX);
    assert_eq!(current(&clock), 128);
}
