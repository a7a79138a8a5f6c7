use vstd::prelude::*;
use vstd::string::StrSliceExecFns;
use vstd::string::StringExecFns;

use crate::json::keys_view;
use crate::json::str_eq;

verus! {

/// The command-line options of the tool, as parsing returns them.
#[derive(Debug)]
pub struct Args {
    /// Path to the input GeoJSON file.
    pub input: String,
    /// Path to the output GeoJSON file; a path ending in '/' names a
    /// directory, and the input's filename is reused under it.
    pub output: String,
    /// How many decimals to keep, when truncation is asked for.
    pub decimal: Option<usize>,
    /// Overwrite the output file when it exists.
    pub overwrite: bool,
    /// Pretty-print the output.
    pub pretty: bool,
    /// Remove properties holding null or an empty string.
    pub remove_null_properties: bool,
    /// Remove the properties with these keys.
    pub properties_to_remove: Option<Vec<String>>,
    /// Keep only the properties with these keys.
    pub properties_to_keep: Option<Vec<String>>,
}

/// The model of [`Args`]: every string a character sequence. `input` is
/// optional here because the same shape carries the parser's running
/// state, where the input may not have been seen yet.
pub struct ArgsView {
    pub input: Option<Seq<char>>,
    pub output: Seq<char>,
    pub decimal: Option<usize>,
    pub overwrite: bool,
    pub pretty: bool,
    pub remove_null_properties: bool,
    pub properties_to_remove: Option<Seq<Seq<char>>>,
    pub properties_to_keep: Option<Seq<Seq<char>>>,
}

impl View for Args {
    type V = ArgsView;

    open spec fn view(&self) -> ArgsView {
        ArgsView {
            input: Some(self.input@),
            output: self.output@,
            decimal: self.decimal,
            overwrite: self.overwrite,
            pretty: self.pretty,
            remove_null_properties: self.remove_null_properties,
            properties_to_remove: match self.properties_to_remove {
                Some(ks) => Some(keys_view(ks@)),
                None => None,
            },
            properties_to_keep: match self.properties_to_keep {
                Some(ks) => Some(keys_view(ks@)),
                None => None,
            },
        }
    }
}

/// Why parsing the command line failed.
#[derive(Debug, Clone, Copy, PartialEq, Eq, Structural)]
pub enum ArgError {
    /// The required input path was never given.
    MissingInput,
    /// A flag that takes a value stood last on the line.
    MissingValue,
    /// The decimal count was not an unsigned integer in range.
    InvalidDecimal,
    /// A token that is no known flag where one was expected.
    UnknownArgument,
}

/// Whether a token looks like a flag rather than a value.
pub open spec fn starts_with_dash(t: Seq<char>) -> bool {
    t.len() > 0 && t[0] == '-'
}

/// Whether `c` is a decimal digit.
pub open spec fn is_ascii_digit(c: char) -> bool {
    '0' <= c <= '9'
}

/// The number a string of digits denotes.
pub open spec fn digits_value(s: Seq<char>) -> int
    decreases s.len(),
{
    if s.len() == 0 {
        0
    } else {
        digits_value(s.drop_last()) * 10 + (s.last() as int - '0' as int)
    }
}

/// What parsing a decimal count returns: the denoted number, provided the
/// token is all digits, is not empty, and the number fits a usize.
pub open spec fn spec_parse_usize(s: Seq<char>) -> Option<usize> {
    if s.len() > 0 && (forall|j: int| 0 <= j < s.len() ==> is_ascii_digit(s[j]))
        && 0 <= digits_value(s) <= usize::MAX {
        Some(digits_value(s) as usize)
    } else {
        None
    }
}

/// The token cut at every comma, in order; a token without commas is one
/// value, and an empty token is one empty value.
pub open spec fn split_commas(s: Seq<char>) -> Seq<Seq<char>>
    decreases s.len(),
{
    if s.len() == 0 {
        seq![Seq::empty()]
    } else {
        let rest = split_commas(s.drop_last());
        if s.last() == ',' {
            rest.push(Seq::empty())
        } else {
            rest.update(rest.len() - 1, rest.last().push(s.last()))
        }
    }
}

/// How many leading tokens are values rather than flags.
pub open spec fn count_value_tokens(tokens: Seq<Seq<char>>) -> int
    decreases tokens.len(),
{
    if tokens.len() == 0 || starts_with_dash(tokens[0]) {
        0
    } else {
        1 + count_value_tokens(tokens.drop_first())
    }
}

/// The values carried by the leading value tokens, each token cut at its
/// commas, all in order.
pub open spec fn collect_values(tokens: Seq<Seq<char>>) -> Seq<Seq<char>>
    decreases tokens.len(),
{
    if tokens.len() == 0 || starts_with_dash(tokens[0]) {
        Seq::empty()
    } else {
        split_commas(tokens[0]) + collect_values(tokens.drop_first())
    }
}

/// The value carried in a token of the form `flag=value`, when the token
/// has that shape for this flag.
pub open spec fn eq_form_value(t: Seq<char>, flag: Seq<char>) -> Option<Seq<char>> {
    if t.len() > flag.len() && t.take(flag.len() as int) == flag && t[flag.len() as int]
        == '=' {
        Some(t.skip(flag.len() as int + 1))
    } else {
        None
    }
}

/// The value carried in a `flag=value` token, under either the short or
/// the long name of the flag.
pub open spec fn eq_value_for(t: Seq<char>, short: Seq<char>, long: Seq<char>) -> Option<
    Seq<char>,
> {
    match eq_form_value(t, short) {
        Some(v) => Some(v),
        None => eq_form_value(t, long),
    }
}

} // verus!

verus! {

/// A digit string's value never shrinks as the string grows.
proof fn lemma_digits_prefix(s: Seq<char>, i: int)
    requires
        0 <= i <= s.len(),
        forall|j: int| 0 <= j < s.len() ==> is_ascii_digit(s[j]),
    ensures
        digits_value(s) >= digits_value(s.take(i)),
        digits_value(s) >= 0,
    decreases s.len(),
{
    if s.len() == 0 {
        assert(s.take(i) =~= s);
    } else {
        lemma_digits_prefix(s.drop_last(), if i < s.len() {
            i
        } else {
            s.len() - 1
        });
        if i < s.len() {
            assert(s.drop_last().take(i) =~= s.take(i));
        } else {
            assert(s.take(i) =~= s);
        }
    }
}

/// Parse a decimal count; what comes back is [`spec_parse_usize`].
#[verifier::loop_isolation(false)]
fn parse_usize(s: &str) -> (r: Option<usize>)
    ensures
        r == spec_parse_usize(s@),
{
    let n = s.unicode_len();
    if n == 0 {
        return None;
    }
    let mut acc: usize = 0;
    let mut i: usize = 0;
    while i < n
        invariant
            n == s@.len(),
            i <= n,
            forall|j: int| 0 <= j < i ==> is_ascii_digit(s@[j]),
            acc == digits_value(s@.take(i as int)),
        decreases n - i,
    {
        let c = s.get_char(i);
        proof {
            assert(s@.take(i + 1).drop_last() =~= s@.take(i as int));
        }
        let cv = c as u32;
        if cv < 48 || cv > 57 {
            return None;
        }
        let d = (cv - 48) as usize;
        if acc > (usize::MAX - d) / 10 {
            proof {
                if forall|j: int| 0 <= j < s@.len() ==> is_ascii_digit(s@[j]) {
                    lemma_digits_prefix(s@, i + 1);
                    assert(digits_value(s@.take(i + 1)) == acc * 10 + d);
                    assert(acc * 10 + d > usize::MAX) by (nonlinear_arith)
                        requires
                            acc > (usize::MAX - d) / 10,
                            d < 10,
                    ;
                }
            }
            return None;
        }
        acc = acc * 10 + d;
        i = i + 1;
    }
    proof {
        assert(s@.take(n as int) =~= s@);
    }
    Some(acc)
}

/// The value in a `flag=value` token, when `t` has that shape.
fn eq_form(t: &str, flag: &str) -> (r: Option<String>)
    ensures
        match r {
            Some(v) => eq_form_value(t@, flag@) == Some(v@),
            None => eq_form_value(t@, flag@) is None,
        },
{
    let n = t.unicode_len();
    let m = flag.unicode_len();
    if n <= m {
        return None;
    }
    let head = t.substring_char(0, m);
    proof {
        assert(head@ =~= t@.take(m as int));
    }
    if !str_eq(head, flag) {
        return None;
    }
    if t.get_char(m) != '=' {
        return None;
    }
    let v = t.substring_char(m + 1, n);
    proof {
        assert(v@ =~= t@.skip(m + 1));
    }
    Some(v.to_owned())
}

/// The value in a `flag=value` token, under either name of the flag.
fn eq_form_for(t: &String, short: &str, long: &str) -> (r: Option<String>)
    ensures
        match r {
            Some(v) => eq_value_for(t@, short@, long@) == Some(v@),
            None => eq_value_for(t@, short@, long@) is None,
        },
{
    match eq_form(t.as_str(), short) {
        Some(v) => Some(v),
        None => eq_form(t.as_str(), long),
    }
}

/// Whether the token opens with a dash, as a flag would.
fn looks_like_flag(t: &String) -> (r: bool)
    ensures
        r == starts_with_dash(t@),
{
    t.as_str().unicode_len() > 0 && t.as_str().get_char(0) == '-'
}

/// One token cut at its commas; what comes back is [`split_commas`].
#[verifier::loop_isolation(false)]
fn split_commas_token(s: &str) -> (r: Vec<String>)
    ensures
        keys_view(r@) == split_commas(s@),
{
    let n = s.unicode_len();
    let mut segs: Vec<String> = Vec::new();
    segs.push(String::new());
    proof {
        assert(keys_view(segs@) =~= split_commas(s@.take(0)));
    }
    let mut i: usize = 0;
    while i < n
        invariant
            n == s@.len(),
            i <= n,
            segs@.len() >= 1,
            keys_view(segs@) == split_commas(s@.take(i as int)),
        decreases n - i,
    {
        let c = s.get_char(i);
        proof {
            assert(s@.take(i + 1).drop_last() =~= s@.take(i as int));
        }
        if c == ',' {
            segs.push(String::new());
        } else {
            let mut last = segs.pop().unwrap();
            last.push(c);
            segs.push(last);
        }
        proof {
            assert(keys_view(segs@) =~= split_commas(s@.take(i + 1)));
        }
        i = i + 1;
    }
    proof {
        assert(s@.take(n as int) =~= s@);
    }
    segs
}

/// Gather the values of the leading value tokens from `start` on, each
/// cut at its commas, and say where the first non-value token stands.
#[verifier::loop_isolation(false)]
fn collect_value_tokens(args: &Vec<String>, start: usize) -> (r: (Vec<String>, usize))
    requires
        start <= args@.len(),
    ensures
        start <= r.1 <= args@.len(),
        keys_view(r.0@) == collect_values(keys_view(args@).skip(start as int)),
        r.1 - start == count_value_tokens(keys_view(args@).skip(start as int)),
{
    let ghost toks = keys_view(args@);
    let mut vals: Vec<String> = Vec::new();
    let mut j = start;
    while j < args.len() && !looks_like_flag(&args[j])
        invariant
            start <= j <= args@.len(),
            collect_values(toks.skip(start as int)) == keys_view(vals@) + collect_values(
                toks.skip(j as int),
            ),
            count_value_tokens(toks.skip(start as int)) == (j - start) + count_value_tokens(
                toks.skip(j as int),
            ),
        decreases args@.len() - j,
    {
        let mut segs = split_commas_token(args[j].as_str());
        let ghost segs0 = segs@;
        vals.append(&mut segs);
        proof {
            assert(toks.skip(j as int).drop_first() =~= toks.skip(j + 1));
            assert(toks.skip(j as int)[0] == args@[j as int]@);
            assert(keys_view(vals@) =~= keys_view(vals@.take(vals@.len() - segs0.len()))
                + keys_view(segs0));
        }
        j = j + 1;
    }
    proof {
        if j < args@.len() {
            assert(toks.skip(j as int)[0] == args@[j as int]@);
        }
        assert(collect_values(toks.skip(j as int)) =~= Seq::empty());
        assert(collect_values(toks.skip(start as int)) =~= keys_view(vals@));
    }
    (vals, j)
}

} // verus!

verus! {

/// A count of value tokens is never negative nor more than the tokens.
pub proof fn lemma_count_value_tokens_bounds(tokens: Seq<Seq<char>>)
    ensures
        0 <= count_value_tokens(tokens) <= tokens.len(),
    decreases tokens.len(),
{
    if tokens.len() > 0 && !starts_with_dash(tokens[0]) {
        lemma_count_value_tokens_bounds(tokens.drop_first());
    }
}

/// The parser's starting state: nothing seen yet, the default output path.
pub open spec fn initial_args() -> ArgsView {
    ArgsView {
        input: None,
        output: "./output/"@,
        decimal: None,
        overwrite: false,
        pretty: false,
        remove_null_properties: false,
        properties_to_remove: None,
        properties_to_keep: None,
    }
}

/// What reading the remaining tokens does to the parser's state. A flag
/// that takes one value reads the following token, or the text after '='
/// in its own token; the two key-list flags read every following token up
/// to the next flag, each cut at its commas — or just the text after '='
/// — and a repeated key-list flag appends; an unknown token stops the
/// parse.
pub open spec fn spec_parse_rest(tokens: Seq<Seq<char>>, acc: ArgsView) -> Result<
    ArgsView,
    ArgError,
>
    decreases tokens.len(),
    via spec_parse_rest_decreases
{
    if tokens.len() == 0 {
        Ok(acc)
    } else {
        let t = tokens[0];
        if t == "-i"@ || t == "--input"@ {
            if tokens.len() == 1 {
                Err(ArgError::MissingValue)
            } else {
                spec_parse_rest(tokens.skip(2), ArgsView { input: Some(tokens[1]), ..acc })
            }
        } else if t == "-o"@ || t == "--output"@ {
            if tokens.len() == 1 {
                Err(ArgError::MissingValue)
            } else {
                spec_parse_rest(tokens.skip(2), ArgsView { output: tokens[1], ..acc })
            }
        } else if t == "-d"@ || t == "--decimal"@ {
            if tokens.len() == 1 {
                Err(ArgError::MissingValue)
            } else {
                match spec_parse_usize(tokens[1]) {
                    Some(v) => spec_parse_rest(
                        tokens.skip(2),
                        ArgsView { decimal: Some(v), ..acc },
                    ),
                    None => Err(ArgError::InvalidDecimal),
                }
            }
        } else if t == "-O"@ || t == "--overwrite"@ {
            spec_parse_rest(tokens.skip(1), ArgsView { overwrite: true, ..acc })
        } else if t == "-p"@ || t == "--pretty"@ {
            spec_parse_rest(tokens.skip(1), ArgsView { pretty: true, ..acc })
        } else if t == "-R"@ || t == "--remove-null-properties"@ {
            spec_parse_rest(tokens.skip(1), ArgsView { remove_null_properties: true, ..acc })
        } else if t == "-r"@ || t == "--properties-to-remove"@ {
            let vals = collect_values(tokens.drop_first());
            let k = count_value_tokens(tokens.drop_first());
            let merged = match acc.properties_to_remove {
                Some(ex) => ex + vals,
                None => vals,
            };
            spec_parse_rest(
                tokens.skip(1 + k),
                ArgsView { properties_to_remove: Some(merged), ..acc },
            )
        } else if t == "-k"@ || t == "--properties-to-keep"@ {
            let vals = collect_values(tokens.drop_first());
            let k = count_value_tokens(tokens.drop_first());
            let merged = match acc.properties_to_keep {
                Some(ex) => ex + vals,
                None => vals,
            };
            spec_parse_rest(
                tokens.skip(1 + k),
                ArgsView { properties_to_keep: Some(merged), ..acc },
            )
        } else if eq_value_for(t, "-i"@, "--input"@) is Some {
            spec_parse_rest(
                tokens.skip(1),
                ArgsView { input: eq_value_for(t, "-i"@, "--input"@), ..acc },
            )
        } else if eq_value_for(t, "-o"@, "--output"@) is Some {
            spec_parse_rest(
                tokens.skip(1),
                ArgsView { output: eq_value_for(t, "-o"@, "--output"@)->0, ..acc },
            )
        } else if eq_value_for(t, "-d"@, "--decimal"@) is Some {
            match spec_parse_usize(eq_value_for(t, "-d"@, "--decimal"@)->0) {
                Some(v) => spec_parse_rest(
                    tokens.skip(1),
                    ArgsView { decimal: Some(v), ..acc },
                ),
                None => Err(ArgError::InvalidDecimal),
            }
        } else if eq_value_for(t, "-r"@, "--properties-to-remove"@) is Some {
            let vals = split_commas(eq_value_for(t, "-r"@, "--properties-to-remove"@)->0);
            let merged = match acc.properties_to_remove {
                Some(ex) => ex + vals,
                None => vals,
            };
            spec_parse_rest(
                tokens.skip(1),
                ArgsView { properties_to_remove: Some(merged), ..acc },
            )
        } else if eq_value_for(t, "-k"@, "--properties-to-keep"@) is Some {
            let vals = split_commas(eq_value_for(t, "-k"@, "--properties-to-keep"@)->0);
            let merged = match acc.properties_to_keep {
                Some(ex) => ex + vals,
                None => vals,
            };
            spec_parse_rest(
                tokens.skip(1),
                ArgsView { properties_to_keep: Some(merged), ..acc },
            )
        } else {
            Err(ArgError::UnknownArgument)
        }
    }
}

#[via_fn]
proof fn spec_parse_rest_decreases(tokens: Seq<Seq<char>>, acc: ArgsView) {
    if tokens.len() > 0 {
        lemma_count_value_tokens_bounds(tokens.drop_first());
    }
}

/// What parsing a command line returns: the first token is the program's
/// own name and is skipped; the input path is required, the output path
/// defaults to "./output/", and everything else to off or absent.
pub open spec fn spec_parse_args(tokens: Seq<Seq<char>>) -> Result<ArgsView, ArgError> {
    if tokens.len() == 0 {
        Err(ArgError::MissingInput)
    } else {
        match spec_parse_rest(tokens.skip(1), initial_args()) {
            Ok(acc) => match acc.input {
                Some(_) => Ok(acc),
                None => Err(ArgError::MissingInput),
            },
            Err(e) => Err(e),
        }
    }
}

/// The parser's state as the running values of [`Args::parse_from`] show it.
pub open spec fn acc_of(
    input: Option<String>,
    output: String,
    decimal: Option<usize>,
    overwrite: bool,
    pretty: bool,
    remove_null_properties: bool,
    properties_to_remove: Option<Vec<String>>,
    properties_to_keep: Option<Vec<String>>,
) -> ArgsView {
    ArgsView {
        input: match input {
            Some(s) => Some(s@),
            None => None,
        },
        output: output@,
        decimal,
        overwrite,
        pretty,
        remove_null_properties,
        properties_to_remove: match properties_to_remove {
            Some(ks) => Some(keys_view(ks@)),
            None => None,
        },
        properties_to_keep: match properties_to_keep {
            Some(ks) => Some(keys_view(ks@)),
            None => None,
        },
    }
}

impl Args {
    /// Parse a command line, its first token the program's own name; see
    /// [`spec_parse_args`] for the grammar. A flag's value may follow it
    /// as the next token or sit in the same token after an '='.
    #[verifier::loop_isolation(false)]
    pub fn parse_from(args: &Vec<String>) -> (r: Result<Args, ArgError>)
        ensures
            match spec_parse_args(crate::json::keys_view(args@)) {
                Ok(av) => r matches Ok(a) && a@ == av,
                Err(e) => r matches Err(e2) && e2 == e,
            },
    {
        let ghost toks = keys_view(args@);
        if args.len() == 0 {
            return Err(ArgError::MissingInput);
        }
        let mut input: Option<String> = None;
        let mut output: String = "./output/".to_owned();
        let mut decimal: Option<usize> = None;
        let mut overwrite = false;
        let mut pretty = false;
        let mut remove_null_properties = false;
        let mut properties_to_remove: Option<Vec<String>> = None;
        let mut properties_to_keep: Option<Vec<String>> = None;
        let mut i: usize = 1;
        while i < args.len()
            invariant
                1 <= i <= args@.len(),
                spec_parse_rest(toks.skip(1), initial_args()) == spec_parse_rest(
                    toks.skip(i as int),
                    acc_of(
                        input,
                        output,
                        decimal,
                        overwrite,
                        pretty,
                        remove_null_properties,
                        properties_to_remove,
                        properties_to_keep,
                    ),
                ),
            decreases args@.len() - i,
        {
            let t = &args[i];
            proof {
                assert(toks.skip(i as int)[0] == args@[i as int]@);
                assert(toks.skip(i as int).drop_first() =~= toks.skip(i + 1));
            }
            if str_eq(t.as_str(), "-i") || str_eq(t.as_str(), "--input") {
                if i + 1 >= args.len() {
                    return Err(ArgError::MissingValue);
                }
                proof {
                    assert(toks.skip(i as int).skip(2) =~= toks.skip(i + 2));
                }
                input = Some(args[i + 1].clone());
                i = i + 2;
            } else if str_eq(t.as_str(), "-o") || str_eq(t.as_str(), "--output") {
                if i + 1 >= args.len() {
                    return Err(ArgError::MissingValue);
                }
                proof {
                    assert(toks.skip(i as int).skip(2) =~= toks.skip(i + 2));
                }
                output = args[i + 1].clone();
                i = i + 2;
            } else if str_eq(t.as_str(), "-d") || str_eq(t.as_str(), "--decimal") {
                if i + 1 >= args.len() {
                    return Err(ArgError::MissingValue);
                }
                proof {
                    assert(toks.skip(i as int).skip(2) =~= toks.skip(i + 2));
                }
                match parse_usize(args[i + 1].as_str()) {
                    Some(v) => {
                        decimal = Some(v);
                    },
                    None => {
                        return Err(ArgError::InvalidDecimal);
                    },
                }
                i = i + 2;
            } else if str_eq(t.as_str(), "-O") || str_eq(t.as_str(), "--overwrite") {
                overwrite = true;
                i = i + 1;
            } else if str_eq(t.as_str(), "-p") || str_eq(t.as_str(), "--pretty") {
                pretty = true;
                i = i + 1;
            } else if str_eq(t.as_str(), "-R") || str_eq(
                t.as_str(),
                "--remove-null-properties",
            ) {
                remove_null_properties = true;
                i = i + 1;
            } else if str_eq(t.as_str(), "-r") || str_eq(
                t.as_str(),
                "--properties-to-remove",
            ) {
                let (mut vals, next) = collect_value_tokens(args, i + 1);
                proof {
                    assert(toks.skip(i as int).skip(
                        1 + count_value_tokens(toks.skip(i + 1)),
                    ) =~= toks.skip(next as int));
                }
                let merged: Vec<String> = match properties_to_remove {
                    Some(mut ex) => {
                        let ghost exv = ex@;
                        let ghost valsv = vals@;
                        ex.append(&mut vals);
                        proof {
                            assert(keys_view(ex@) =~= keys_view(exv) + keys_view(valsv));
                        }
                        ex
                    },
                    None => vals,
                };
                properties_to_remove = Some(merged);
                i = next;
            } else if str_eq(t.as_str(), "-k") || str_eq(
                t.as_str(),
                "--properties-to-keep",
            ) {
                let (mut vals, next) = collect_value_tokens(args, i + 1);
                proof {
                    assert(toks.skip(i as int).skip(
                        1 + count_value_tokens(toks.skip(i + 1)),
                    ) =~= toks.skip(next as int));
                }
                let merged: Vec<String> = match properties_to_keep {
                    Some(mut ex) => {
                        let ghost exv = ex@;
                        let ghost valsv = vals@;
                        ex.append(&mut vals);
                        proof {
                            assert(keys_view(ex@) =~= keys_view(exv) + keys_view(valsv));
                        }
                        ex
                    },
                    None => vals,
                };
                properties_to_keep = Some(merged);
                i = next;
            } else if eq_form_for(t, "-i", "--input").is_some() {
                input = eq_form_for(t, "-i", "--input");
                i = i + 1;
            } else if eq_form_for(t, "-o", "--output").is_some() {
                output = eq_form_for(t, "-o", "--output").unwrap();
                i = i + 1;
            } else if eq_form_for(t, "-d", "--decimal").is_some() {
                let v = eq_form_for(t, "-d", "--decimal").unwrap();
                match parse_usize(v.as_str()) {
                    Some(d) => {
                        decimal = Some(d);
                    },
                    None => {
                        return Err(ArgError::InvalidDecimal);
                    },
                }
                i = i + 1;
            } else if eq_form_for(t, "-r", "--properties-to-remove").is_some() {
                let v = eq_form_for(t, "-r", "--properties-to-remove").unwrap();
                let mut vals = split_commas_token(v.as_str());
                let merged: Vec<String> = match properties_to_remove {
                    Some(mut ex) => {
                        let ghost exv = ex@;
                        let ghost valsv = vals@;
                        ex.append(&mut vals);
                        proof {
                            assert(keys_view(ex@) =~= keys_view(exv) + keys_view(valsv));
                        }
                        ex
                    },
                    None => vals,
                };
                properties_to_remove = Some(merged);
                i = i + 1;
            } else if eq_form_for(t, "-k", "--properties-to-keep").is_some() {
                let v = eq_form_for(t, "-k", "--properties-to-keep").unwrap();
                let mut vals = split_commas_token(v.as_str());
                let merged: Vec<String> = match properties_to_keep {
                    Some(mut ex) => {
                        let ghost exv = ex@;
                        let ghost valsv = vals@;
                        ex.append(&mut vals);
                        proof {
                            assert(keys_view(ex@) =~= keys_view(exv) + keys_view(valsv));
                        }
                        ex
                    },
                    None => vals,
                };
                properties_to_keep = Some(merged);
                i = i + 1;
            } else {
                return Err(ArgError::UnknownArgument);
            }
        }
        proof {
            assert(toks.skip(i as int) =~= Seq::<Seq<char>>::empty());
        }
        match input {
            Some(inp) => Ok(
                Args {
                    input: inp,
                    output,
                    decimal,
                    overwrite,
                    pretty,
                    remove_null_properties,
                    properties_to_remove,
                    properties_to_keep,
                },
            ),
            None => Err(ArgError::MissingInput),
        }
    }
}

} // verus!

