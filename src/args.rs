//! Reading the command line into settings.
use vstd::prelude::*;

use crate::envvar::same_text;
use crate::list_codec::{chars_of, views};
use crate::settings::{str_view, Settings, SettingsModel, ShellRc};

verus! {

/// `c` is white space, as Unicode's White_Space property lists it.
pub open spec fn is_space(c: char) -> bool {
    let u = c as u32;
    (0x09 <= u && u <= 0x0D) || u == 0x20 || u == 0x85 || u == 0xA0 || u == 0x1680 || (0x2000 <= u
        && u <= 0x200A) || u == 0x2028 || u == 0x2029 || u == 0x202F || u == 0x205F || u == 0x3000
}

/// `t` holds a character that is not white space.
pub open spec fn not_blank(t: Seq<char>) -> bool {
    exists|i: int| 0 <= i < t.len() && !is_space(#[trigger] t[i])
}

/// `v` is given and holds more than white space.
pub open spec fn has_text(v: Option<Seq<char>>) -> bool {
    match v {
        Some(t) => not_blank(t),
        None => false,
    }
}

/// The index of the first `=` of `s` from `i` on; the length where there is none.
pub open spec fn next_eq(s: Seq<char>, i: int) -> int
    decreases s.len() - i,
{
    if i < 0 || i >= s.len() {
        s.len() as int
    } else if s[i] == '=' {
        i
    } else {
        next_eq(s, i + 1)
    }
}

/// The option name of the argument `a`: the text before its first `=`.
pub open spec fn key_of(a: Seq<char>) -> Seq<char> {
    a.subrange(0, next_eq(a, 0))
}

/// The value of the argument `a`: the text between its first `=` and the
/// next one, if it has an `=`.
pub open spec fn value_of(a: Seq<char>) -> Option<Seq<char>> {
    let p = next_eq(a, 0);
    if p >= a.len() {
        None
    } else {
        Some(a.subrange(p + 1, next_eq(a, p + 1)))
    }
}

/// The decimal digits of `n`.
pub open spec fn decimal(n: nat) -> Seq<char>
    decreases n,
{
    if n < 10 {
        seq![digit_char(n)]
    } else {
        decimal(n / 10).push(digit_char(n % 10))
    }
}

pub open spec fn digit_char(d: nat) -> char {
    (d + 48) as char
}

/// The number that the decimal digits `s` write.
pub open spec fn digits_value(s: Seq<char>) -> int
    decreases s.len(),
{
    if s.len() == 0 {
        0
    } else {
        digits_value(s.drop_last()) * 10 + ((s.last() as u32) as int - 48)
    }
}

pub open spec fn is_digit(c: char) -> bool {
    48 <= (c as u32) && (c as u32) <= 57
}

/// The digits of an unsigned number, after an optional `+`.
pub open spec fn unsigned_digits(s: Seq<char>) -> Seq<char> {
    if s.len() > 0 && s[0] == '+' {
        s.drop_first()
    } else {
        s
    }
}

/// The unsigned 32-bit number that `s` writes: an optional `+` and one or
/// more decimal digits; none where `s` is not so or the number is too large.
pub open spec fn u32_of(s: Seq<char>) -> Option<u32> {
    let t = unsigned_digits(s);
    if t.len() > 0 && (forall|i: int| 0 <= i < t.len() ==> is_digit(#[trigger] t[i]))
        && digits_value(t) <= u32::MAX {
        Some(digits_value(t) as u32)
    } else {
        None
    }
}

/// `a` is a long option: it begins with `--`.
pub open spec fn is_long(a: Seq<char>) -> bool {
    a.len() >= 2 && a[0] == '-' && a[1] == '-'
}

/// The settings before any argument is read, for `n` arguments.
pub open spec fn initial_model(n: int) -> SettingsModel {
    SettingsModel {
        no_args: n <= 1,
        help: false,
        no_color: false,
        dry_run: false,
        verbose: 0,
        version: false,
        export: None,
        import: None,
        shell: Some("bash"@),
        output_rc: None,
    }
}

/// The settings after the option `k` with value `v`; none where the value
/// is missing or malformed.
pub open spec fn apply_option(m: SettingsModel, k: Seq<char>, v: Option<Seq<char>>) -> Option<
    SettingsModel,
> {
    if k == "--help"@ {
        Some(SettingsModel { help: true, ..m })
    } else if k == "--no-color"@ {
        Some(SettingsModel { no_color: true, ..m })
    } else if k == "--dry-run"@ {
        Some(SettingsModel { dry_run: true, ..m })
    } else if k == "--export"@ {
        if has_text(v) {
            Some(SettingsModel { export: v, ..m })
        } else {
            None
        }
    } else if k == "--import"@ {
        if has_text(v) {
            Some(SettingsModel { import: v, ..m })
        } else {
            None
        }
    } else if k == "--shell"@ {
        if has_text(v) {
            Some(
                SettingsModel {
                    shell: v,
                    output_rc: if m.output_rc is None {
                        Some(".envvar_"@ + v.unwrap() + "rc"@)
                    } else {
                        m.output_rc
                    },
                    ..m
                },
            )
        } else {
            None
        }
    } else if k == "--rc"@ {
        if has_text(v) {
            Some(SettingsModel { output_rc: v, ..m })
        } else {
            None
        }
    } else if k == "--verbose"@ {
        match v {
            Some(t) => match u32_of(t) {
                Some(n) => Some(SettingsModel { verbose: n, ..m }),
                None => None,
            },
            None => Some(SettingsModel { verbose: 1, ..m }),
        }
    } else if k == "--version"@ {
        Some(SettingsModel { version: true, ..m })
    } else {
        Some(SettingsModel { help: true, ..m })
    }
}

/// The settings after the first `n` arguments of `args`, or the argument
/// that is rejected.
pub open spec fn parse_prefix(args: Seq<Seq<char>>, n: int) -> Result<SettingsModel, Seq<char>>
    decreases n,
{
    if n <= 0 {
        Ok(initial_model(args.len() as int))
    } else {
        match parse_prefix(args, n - 1) {
            Err(a) => Err(a),
            Ok(m) => {
                let a = args[n - 1];
                if !is_long(a) {
                    Ok(m)
                } else {
                    match apply_option(m, key_of(a), value_of(a)) {
                        Some(m2) => Ok(m2),
                        None => Err(a),
                    }
                }
            },
        }
    }
}

fn next_eq_exec(s: &Vec<char>, from: usize) -> (r: usize)
    requires
        from <= s.len(),
    ensures
        r == next_eq(s@, from as int),
{
    let mut i = from;
    while i < s.len()
        invariant
            from <= i <= s.len(),
            next_eq(s@, from as int) == next_eq(s@, i as int),
        decreases s.len() - i,
    {
        if s[i] == '=' {
            return i;
        }
        i = i + 1;
    }
    i
}

/// The decimal digits of `n`.
pub fn decimal_text(n: usize) -> (r: String)
    ensures
        r@ == decimal(n as nat),
    decreases n,
{
    let mut out = if n < 10 {
        String::new()
    } else {
        decimal_text(n / 10)
    };
    out.append(digit_text((n % 10) as u32));
    assert(n < 10 ==> out@ =~= seq![digit_char(n as nat)]);
    out
}

fn digit_text(d: u32) -> (r: &'static str)
    requires
        d < 10,
    ensures
        r@ == seq![digit_char(d as nat)],
{
    proof {
        reveal_strlit("0");
        reveal_strlit("1");
        reveal_strlit("2");
        reveal_strlit("3");
        reveal_strlit("4");
        reveal_strlit("5");
        reveal_strlit("6");
        reveal_strlit("7");
        reveal_strlit("8");
        reveal_strlit("9");
    }
    match d {
        0 => "0",
        1 => "1",
        2 => "2",
        3 => "3",
        4 => "4",
        5 => "5",
        6 => "6",
        7 => "7",
        8 => "8",
        _ => "9",
    }
}

/// The argument `a` is rejected with the message `e`.
pub open spec fn rejected(res: Result<SettingsModel, Seq<char>>, e: Seq<char>) -> bool {
    match res {
        Err(a) => e == "invalid argument: "@ + a,
        Ok(_) => false,
    }
}

fn is_space_exec(c: char) -> (r: bool)
    ensures
        r == is_space(c),
{
    let u = c as u32;
    (0x09 <= u && u <= 0x0D) || u == 0x20 || u == 0x85 || u == 0xA0 || u == 0x1680 || (0x2000 <= u
        && u <= 0x200A) || u == 0x2028 || u == 0x2029 || u == 0x202F || u == 0x205F || u == 0x3000
}

fn has_non_space(t: &str) -> (r: bool)
    ensures
        r == not_blank(t@),
{
    let c = chars_of(t);
    let mut i: usize = 0;
    while i < c.len()
        invariant
            c@ == t@,
            i <= c.len(),
            forall|j: int| 0 <= j < i ==> is_space(#[trigger] c@[j]),
        decreases c.len() - i,
    {
        if !is_space_exec(c[i]) {
            assert(!is_space(t@[i as int]));
            return true;
        }
        i = i + 1;
    }
    false
}

fn has_text_exec(v: Option<&str>) -> (r: bool)
    ensures
        r == has_text(str_view(v)),
{
    match v {
        None => false,
        Some(t) => has_non_space(t),
    }
}

proof fn lemma_digits_mono(s: Seq<char>, k: int)
    requires
        0 <= k <= s.len(),
        forall|i: int| 0 <= i < s.len() ==> is_digit(#[trigger] s[i]),
    ensures
        0 <= digits_value(s.subrange(0, k)) <= digits_value(s),
    decreases s.len(),
{
    if s.len() > 0 {
        let t = s.drop_last();
        assert forall|i: int| 0 <= i < t.len() implies is_digit(#[trigger] t[i]) by {
            assert(t[i] == s[i]);
        }
        assert(is_digit(s[s.len() - 1]));
        lemma_digits_mono(t, t.len() as int);
        assert(t.subrange(0, t.len() as int) =~= t);
        let vt = digits_value(t);
        assert(vt * 10 >= vt) by (nonlinear_arith)
            requires
                vt >= 0,
        ;
        if k == s.len() {
            assert(s.subrange(0, k) =~= s);
            lemma_digits_mono(t, t.len() as int);
            assert(t.subrange(0, t.len() as int) =~= t);
        } else {
            lemma_digits_mono(t, k);
            lemma_digits_mono(t, t.len() as int);
            assert(t.subrange(0, k) =~= s.subrange(0, k));
            assert(t.subrange(0, t.len() as int) =~= t);
        }
    } else {
        assert(s.subrange(0, k) =~= s);
    }
}

fn parse_u32(s: &str) -> (r: Option<u32>)
    ensures
        r == u32_of(s@),
{
    let c = chars_of(s);
    let mut i: usize = 0;
    if c.len() > 0 && c[0] == '+' {
        i = 1;
    }
    let ghost t = unsigned_digits(s@);
    assert(t =~= c@.subrange(i as int, c@.len() as int));
    if i >= c.len() {
        return None;
    }
    let mut acc: u64 = 0;
    let mut j: usize = i;
    while j < c.len()
        invariant
            c@ == s@,
            t == unsigned_digits(s@),
            t == c@.subrange(i as int, c@.len() as int),
            i <= j <= c.len(),
            acc == digits_value(c@.subrange(i as int, j as int)),
            acc <= u32::MAX,
            forall|k: int| i <= k < j ==> is_digit(#[trigger] c@[k]),
        decreases c.len() - j,
    {
        let u = c[j] as u32;
        if u < 48 || u > 57 {
            assert(t[j - i] == c@[j as int]);
            assert(!is_digit(t[j - i]));
            return None;
        }
        proof {
            let p = c@.subrange(i as int, j as int + 1);
            assert(p.drop_last() =~= c@.subrange(i as int, j as int));
        }
        acc = acc * 10 + (u - 48) as u64;
        if acc > u32::MAX as u64 {
            proof {
                if forall|k: int| 0 <= k < t.len() ==> is_digit(#[trigger] t[k]) {
                    lemma_digits_mono(t, j - i + 1);
                    assert(t.subrange(0, j - i + 1) =~= c@.subrange(i as int, j as int + 1));
                }
            }
            return None;
        }
        j = j + 1;
    }
    assert(c@.subrange(i as int, j as int) =~= t);
    Some(acc as u32)
}

fn is_long_exec(a: &str) -> (r: bool)
    ensures
        r == is_long(a@),
{
    let n = a.unicode_len();
    n >= 2 && a.get_char(0) == '-' && a.get_char(1) == '-'
}

fn get_key_value_long<'a>(args: &'a Vec<String>, index: usize) -> (r: Result<
    (&'a str, Option<&'a str>),
    String,
>)
    ensures
        match r {
            Ok((k, v)) => index < args@.len() && k@ == key_of(args@[index as int]@) && str_view(v)
                == value_of(args@[index as int]@),
            Err(e) => index >= args@.len() && e@ == "cannot get argument. index: "@ + decimal(
                index as nat,
            ),
        },
{
    if index >= args.len() {
        let mut e = "cannot get argument. index: ".to_owned();
        let n = decimal_text(index);
        e.append(n.as_str());
        return Err(e);
    }
    let a: &'a str = args[index].as_str();
    let c = chars_of(a);
    let p = next_eq_exec(&c, 0);
    proof {
        lemma_next_eq_bounds(c@, 0);
    }
    let k = a.substring_char(0, p);
    if p >= c.len() {
        Ok((k, None))
    } else {
        let q = next_eq_exec(&c, p + 1);
        proof {
            lemma_next_eq_bounds(c@, p as int + 1);
        }
        Ok((k, Some(a.substring_char(p + 1, q))))
    }
}

proof fn lemma_next_eq_bounds(s: Seq<char>, i: int)
    requires
        0 <= i <= s.len(),
    ensures
        i <= next_eq(s, i) <= s.len(),
    decreases s.len() - i,
{
    if i < s.len() && s[i] != '=' {
        lemma_next_eq_bounds(s, i + 1);
    }
}

proof fn lemma_parse_stops(args: Seq<Seq<char>>, k: int, n: int)
    requires
        0 <= k <= n,
        parse_prefix(args, k) is Err,
    ensures
        parse_prefix(args, n) == parse_prefix(args, k),
    decreases n - k,
{
    if k < n {
        lemma_parse_stops(args, k, n - 1);
    }
}

fn invalid(a: &str) -> (r: String)
    ensures
        r@ == "invalid argument: "@ + a@,
{
    let mut e = "invalid argument: ".to_owned();
    e.append(a);
    e
}

/// Reads the command line `args`, the program's name first: each argument
/// that begins with `--` is an option, a later one overriding an earlier;
/// the first malformed option is rejected.
pub fn parse<'a>(args: &'a Vec<String>) -> (r: Result<Settings<'a>, String>)
    ensures
        match r {
            Ok(s) => parse_prefix(views(args@), args@.len() as int) == Ok::<
                SettingsModel,
                Seq<char>,
            >(s.model()) && s.set_variable is None && !s.system,
            Err(e) => rejected(parse_prefix(views(args@), args@.len() as int), e@),
        },
{
    let ghost xs = views(args@);
    proof {
        reveal_strlit("bash");
    }
    let mut settings = Settings {
        no_args: args.len() <= 1,
        help: false,
        no_color: false,
        dry_run: false,
        verbose: 0,
        version: false,
        export: None,
        import: None,
        set_variable: None,
        system: false,
        shell_rc: ShellRc { shell: Some("bash"), output_rc: None },
    };
    let mut i: usize = 0;
    while i < args.len()
        invariant
            xs == views(args@),
            xs.len() == args@.len(),
            i <= args.len(),
            parse_prefix(xs, i as int) == Ok::<SettingsModel, Seq<char>>(settings.model()),
            settings.set_variable is None,
            !settings.system,
        decreases args.len() - i,
    {
        let a: &'a str = args[i].as_str();
        assert(xs[i as int] == a@);
        if is_long_exec(a) {
            let (k, v) = match get_key_value_long(args, i) {
                Ok(kv) => kv,
                Err(e) => return Err(e),
            };
            if same_text(k, "--help") {
                settings.help = true;
            } else if same_text(k, "--no-color") {
                settings.no_color = true;
            } else if same_text(k, "--dry-run") {
                settings.dry_run = true;
            } else if same_text(k, "--export") {
                if !has_text_exec(v) {
                    proof {
                        lemma_parse_stops(xs, i as int + 1, xs.len() as int);
                    }
                    return Err(invalid(a));
                }
                settings.export = v;
            } else if same_text(k, "--import") {
                if !has_text_exec(v) {
                    proof {
                        lemma_parse_stops(xs, i as int + 1, xs.len() as int);
                    }
                    return Err(invalid(a));
                }
                settings.import = v;
            } else if same_text(k, "--shell") {
                if !has_text_exec(v) {
                    proof {
                        lemma_parse_stops(xs, i as int + 1, xs.len() as int);
                    }
                    return Err(invalid(a));
                }
                settings.shell_rc.shell = v;
                if settings.shell_rc.output_rc.is_none() {
                    let mut o = ".envvar_".to_owned();
                    o.append(v.unwrap());
                    o.append("rc");
                    settings.shell_rc.output_rc = Some(o);
                }
            } else if same_text(k, "--rc") {
                if !has_text_exec(v) {
                    proof {
                        lemma_parse_stops(xs, i as int + 1, xs.len() as int);
                    }
                    return Err(invalid(a));
                }
                settings.shell_rc.output_rc = Some(v.unwrap().to_owned());
            } else if same_text(k, "--verbose") {
                match v {
                    Some(n_str) => match parse_u32(n_str) {
                        Some(n) => settings.verbose = n,
                        None => {
                            proof {
                                lemma_parse_stops(xs, i as int + 1, xs.len() as int);
                            }
                            return Err(invalid(a));
                        },
                    },
                    None => settings.verbose = 1,
                }
            } else if same_text(k, "--version") {
                settings.version = true;
            } else {
                settings.help = true;
            }
        }
        i = i + 1;
    }
    Ok(settings)
}

} // verus!
