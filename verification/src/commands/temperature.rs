//! Temperature conversion between Celsius and Fahrenheit, exact over
//! decimals and rounded to two places.

use vstd::prelude::*;

use crate::commands::{Command, CommandError, CommandErrorView};
use crate::config::{Config, ConfigView, Role, RoleView};
use crate::decimal::{
    c_to_f_spec, celsius_to_fahrenheit, dec_canon, decimal_canon_chars, f_to_c_spec,
    fahrenheit_to_celsius, filter_signed_number_chars, parse_decimal_chars, parse_decimal_spec,
    signed_number_chars, NumParse,
};
use crate::text::{chars_to_string, str_to_chars};
use crate::util::perms::{check_permission, has_perm};

verus! {

/// The first Celsius or Fahrenheit marker in the text, case-insensitively,
/// reported lower-case.
pub open spec fn find_cf(s: Seq<char>) -> Option<char>
    decreases s.len(),
{
    if s.len() == 0 {
        None
    } else if s[0] == 'c' || s[0] == 'C' {
        Some('c')
    } else if s[0] == 'f' || s[0] == 'F' {
        Some('f')
    } else {
        find_cf(s.drop_first())
    }
}

proof fn lemma_find_cf_values(s: Seq<char>)
    ensures
        find_cf(s) matches Some(m) ==> m == 'c' || m == 'f',
    decreases s.len(),
{
    if s.len() > 0 && !(s[0] == 'c' || s[0] == 'C') && !(s[0] == 'f' || s[0] == 'F') {
        lemma_find_cf_values(s.drop_first());
    }
}

fn find_cf_chars(v: &Vec<char>) -> (r: Option<char>)
    ensures
        r == find_cf(v@),
{
    let mut i: usize = 0;
    proof {
        assert(v@.skip(0) =~= v@);
    }
    while i < v.len()
        invariant
            i <= v.len(),
            find_cf(v@) == find_cf(v@.skip(i as int)),
        decreases v.len() - i,
    {
        let c = v[i];
        proof {
            let rest = v@.skip(i as int);
            assert(rest[0] == v@[i as int]);
            assert(rest.drop_first() =~= v@.skip(i + 1));
        }
        if c == 'c' || c == 'C' {
            return Some('c');
        }
        if c == 'f' || c == 'F' {
            return Some('f');
        }
        i += 1;
    }
    proof {
        assert(v@.skip(v@.len() as int) =~= Seq::<char>::empty());
    }
    None
}

/// What `temp` replies for permitted callers. The digits, dot and dash of
/// the input are read as degrees; the first `c` or `f`, in either case,
/// picks the direction. A missing marker or unreadable number is a usage
/// error; a number too large to convert is out of range.
pub open spec fn temp_spec(input: Seq<char>) -> Result<Seq<char>, CommandErrorView> {
    let ds = signed_number_chars(input);
    match find_cf(input) {
        None => Err(CommandErrorView::InvalidSyntax("Usage: <Degrees> <C|F>"@)),
        Some(marker) => {
            if ds.len() == 0 {
                Err(CommandErrorView::InvalidSyntax("Usage: <Degrees> <C|F>"@))
            } else {
                match parse_decimal_spec(ds) {
                    NumParse::Bad => Err(
                        CommandErrorView::InvalidSyntax("Usage: <Degrees> <C|F>"@),
                    ),
                    NumParse::TooBig => Err(CommandErrorView::BadUsage("I dunno lol"@)),
                    NumParse::Value(d) => {
                        if marker == 'f' {
                            Ok(
                                dec_canon(d) + " in Fahrenheit is "@ + dec_canon(f_to_c_spec(d))
                                    + " in Celsius."@,
                            )
                        } else {
                            Ok(
                                dec_canon(d) + " in Celsius is "@ + dec_canon(c_to_f_spec(d))
                                    + " in Fahrenheit."@,
                            )
                        }
                    },
                }
            }
        },
    }
}

pub struct TemperatureCommand;

impl Command for TemperatureCommand {
    open spec fn name_spec(&self) -> Seq<char> {
        "temp"@
    }

    open spec fn usage_spec(&self) -> Seq<char> {
        "Usage: <Degrees> <C|F>"@
    }

    open spec fn execute_ensures(
        &self,
        config: ConfigView,
        role: RoleView,
        input: Seq<char>,
        r: Result<Seq<char>, CommandErrorView>,
    ) -> bool {
        if has_perm(config, "cmd.temp"@, role, config.roles.len() as nat) {
            r == temp_spec(input)
        } else {
            r == Err::<Seq<char>, CommandErrorView>(CommandErrorView::NoPerms)
        }
    }

    fn name(&self) -> (r: &'static str) {
        "temp"
    }

    fn usage(&self) -> (r: &'static str) {
        "Usage: <Degrees> <C|F>"
    }

    fn about(&self) -> &'static str {
        "Converts a number of degrees in Celsius to Fahrenheit, or a number of degrees in Fahrenheit to Celsius"
    }

    fn execute(&self, config: &Config, role: &Role, input: &String) -> (r: Result<
        String,
        CommandError,
    >) {
        if !check_permission(config, "cmd.temp".to_owned(), role) {
            return Err(CommandError::NoPerms);
        }
        let chars = str_to_chars(input.as_str());
        let ds = filter_signed_number_chars(&chars);
        let marker = match find_cf_chars(&chars) {
            None => {
                return Err(CommandError::InvalidSyntax(self.usage().to_owned()));
            },
            Some(m) => m,
        };
        if ds.len() == 0 {
            return Err(CommandError::InvalidSyntax(self.usage().to_owned()));
        }
        match parse_decimal_chars(&ds) {
            NumParse::Bad => Err(CommandError::InvalidSyntax(self.usage().to_owned())),
            NumParse::TooBig => Err(CommandError::BadUsage("I dunno lol".to_owned())),
            NumParse::Value(d) => {
                let in_str = chars_to_string(&decimal_canon_chars(&d));
                let mut out = String::new();
                if marker == 'f' {
                    let conv = fahrenheit_to_celsius(&d);
                    let out_str = chars_to_string(&decimal_canon_chars(&conv));
                    out.append(in_str.as_str());
                    out.append(" in Fahrenheit is ");
                    out.append(out_str.as_str());
                    out.append(" in Celsius.");
                } else {
                    let conv = celsius_to_fahrenheit(&d);
                    let out_str = chars_to_string(&decimal_canon_chars(&conv));
                    out.append(in_str.as_str());
                    out.append(" in Celsius is ");
                    out.append(out_str.as_str());
                    out.append(" in Fahrenheit.");
                }
                proof {
                    lemma_find_cf_values(chars@);
                    if marker == 'f' {
                        assert(out@ =~= dec_canon(d) + " in Fahrenheit is "@ + dec_canon(
                            f_to_c_spec(d),
                        ) + " in Celsius."@);
                    } else {
                        assert(marker == 'c');
                        assert(out@ =~= dec_canon(d) + " in Celsius is "@ + dec_canon(
                            c_to_f_spec(d),
                        ) + " in Fahrenheit."@);
                    }
                }
                Ok(out)
            },
        }
    }
}

} // verus!
