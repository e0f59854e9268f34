//! Unit conversions between items, stacks of sixty-four, and shulkers of
//! twenty-seven stacks.

use vstd::prelude::*;

use crate::commands::{Command, CommandError, CommandErrorView};
use crate::config::{Config, ConfigView, Role, RoleView};
use crate::decimal::{
    dec_canon, decimal_eq_one, decimal_times64, filter_unsigned_number_chars,
    lemma_unsigned_number_chars_all, parse_decimal_chars, parse_decimal_spec, pow10, times64_spec,
    unsigned_number_chars, Decimal, NumParse,
};
use crate::text::{
    chars_to_string, dec_str, digits_of, digits_val, filter_digits, is_digit_char,
    lemma_digits_of_all, parse_i32_digits, str_to_chars, u128_to_chars,
};
use crate::util::perms::{check_permission, has_perm};

verus! {

/// `"s"` when a count is not one, the empty suffix when it is.
pub open spec fn plural_suffix(n: int) -> Seq<char> {
    if n == 1 {
        Seq::<char>::empty()
    } else {
        seq!['s']
    }
}

/// The third-person verb ending: `"s"` exactly when the count is one.
pub open spec fn verb_suffix(n: int) -> Seq<char> {
    if n != 1 {
        Seq::<char>::empty()
    } else {
        seq!['s']
    }
}

pub fn pluralize(input: i32) -> (r: &'static str)
    ensures
        r@ == plural_suffix(input as int),
{
    proof {
        reveal_strlit("s");
        reveal_strlit("");
    }
    if input == 1 {
        ""
    } else {
        "s"
    }
}

pub fn third_person_ending(input: i32) -> (r: &'static str)
    ensures
        r@ == verb_suffix(input as int),
{
    proof {
        reveal_strlit("s");
        reveal_strlit("");
    }
    if input != 1 {
        ""
    } else {
        "s"
    }
}

/// The reply of `mcstacks` for an item count.
pub open spec fn mcstacks_text(n: int) -> Seq<char> {
    dec_str(n as nat) + " item"@ + plural_suffix(n) + " break"@ + verb_suffix(n) + " down into "@
        + dec_str((n / 64) as nat) + " stack"@ + plural_suffix(n / 64) + " with "@ + dec_str(
        (n % 64) as nat,
    ) + " item"@ + plural_suffix(n % 64) + " left over"@
}

/// What `mcstacks` replies for permitted callers: the digits of the input
/// are read as an item count; nothing readable, or a count beyond `i32`, is
/// a usage error.
pub open spec fn mcstacks_spec(input: Seq<char>) -> Result<Seq<char>, CommandErrorView> {
    let ds = digits_of(input);
    if ds.len() == 0 || digits_val(ds) > i32::MAX {
        Err(CommandErrorView::InvalidSyntax("Usage: <number of items>"@))
    } else {
        Ok(mcstacks_text(digits_val(ds) as int))
    }
}

pub struct McStacksCommand;

impl Command for McStacksCommand {
    open spec fn name_spec(&self) -> Seq<char> {
        "mcstacks"@
    }

    open spec fn usage_spec(&self) -> Seq<char> {
        "Usage: <number of items>"@
    }

    open spec fn execute_ensures(
        &self,
        config: ConfigView,
        role: RoleView,
        input: Seq<char>,
        r: Result<Seq<char>, CommandErrorView>,
    ) -> bool {
        if has_perm(config, "cmd.mcstacks"@, role, config.roles.len() as nat) {
            r == mcstacks_spec(input)
        } else {
            r == Err::<Seq<char>, CommandErrorView>(CommandErrorView::NoPerms)
        }
    }

    fn name(&self) -> (r: &'static str) {
        "mcstacks"
    }

    fn usage(&self) -> (r: &'static str) {
        "Usage: <number of items>"
    }

    fn about(&self) -> &'static str {
        "Converts a given amount of Minecraft items to how many stacks (64) they make up, with the remainder."
    }

    fn execute(&self, config: &Config, role: &Role, input: &String) -> (r: Result<
        String,
        CommandError,
    >) {
        if !check_permission(config, "cmd.mcstacks".to_owned(), role) {
            return Err(CommandError::NoPerms);
        }
        let chars = str_to_chars(input.as_str());
        let ds = filter_digits(&chars);
        proof {
            lemma_digits_of_all(chars@);
        }
        if ds.len() == 0 {
            return Err(CommandError::InvalidSyntax(self.usage().to_owned()));
        }
        match parse_i32_digits(&ds) {
            None => Err(CommandError::InvalidSyntax(self.usage().to_owned())),
            Some(items) => {
                let stacks: i32 = items / 64;
                let left: i32 = items % 64;
                let mut out = String::new();
                out.append(chars_to_string(&u128_to_chars(items as u128)).as_str());
                out.append(" item");
                out.append(pluralize(items));
                out.append(" break");
                out.append(third_person_ending(items));
                out.append(" down into ");
                out.append(chars_to_string(&u128_to_chars(stacks as u128)).as_str());
                out.append(" stack");
                out.append(pluralize(stacks));
                out.append(" with ");
                out.append(chars_to_string(&u128_to_chars(left as u128)).as_str());
                out.append(" item");
                out.append(pluralize(left));
                out.append(" left over");
                proof {
                    assert(out@ =~= mcstacks_text(items as int));
                }
                Ok(out)
            },
        }
    }
}

/// The reply of `mcshulkers` for an item count.
pub open spec fn mcshulkers_text(n: int) -> Seq<char> {
    dec_str(n as nat) + " item"@ + plural_suffix(n) + " break"@ + verb_suffix(n) + " down into "@
        + dec_str((n / 1728) as nat) + " shulker"@ + plural_suffix(n / 1728) + " plus "@ + dec_str(
        ((n % 1728) / 64) as nat,
    ) + " stack"@ + plural_suffix((n % 1728) / 64) + " and "@ + dec_str(((n % 1728) % 64) as nat)
        + " item"@ + plural_suffix((n % 1728) % 64) + " left over"@
}

/// What `mcshulkers` replies for permitted callers.
pub open spec fn mcshulkers_spec(input: Seq<char>) -> Result<Seq<char>, CommandErrorView> {
    let ds = digits_of(input);
    if ds.len() == 0 || digits_val(ds) > i32::MAX {
        Err(CommandErrorView::InvalidSyntax("Usage: <number of items>"@))
    } else {
        Ok(mcshulkers_text(digits_val(ds) as int))
    }
}

pub struct McShulkersCommand;

impl Command for McShulkersCommand {
    open spec fn name_spec(&self) -> Seq<char> {
        "mcshulkers"@
    }

    open spec fn usage_spec(&self) -> Seq<char> {
        "Usage: <number of items>"@
    }

    open spec fn execute_ensures(
        &self,
        config: ConfigView,
        role: RoleView,
        input: Seq<char>,
        r: Result<Seq<char>, CommandErrorView>,
    ) -> bool {
        if has_perm(config, "cmd.mcshulkers"@, role, config.roles.len() as nat) {
            r == mcshulkers_spec(input)
        } else {
            r == Err::<Seq<char>, CommandErrorView>(CommandErrorView::NoPerms)
        }
    }

    fn name(&self) -> (r: &'static str) {
        "mcshulkers"
    }

    fn usage(&self) -> (r: &'static str) {
        "Usage: <number of items>"
    }

    fn about(&self) -> &'static str {
        "Converts a given amount of Minecraft items to how many shulkers, stacks. and remaining items they make up."
    }

    fn execute(&self, config: &Config, role: &Role, input: &String) -> (r: Result<
        String,
        CommandError,
    >) {
        if !check_permission(config, "cmd.mcshulkers".to_owned(), role) {
            return Err(CommandError::NoPerms);
        }
        let chars = str_to_chars(input.as_str());
        let ds = filter_digits(&chars);
        proof {
            lemma_digits_of_all(chars@);
        }
        if ds.len() == 0 {
            return Err(CommandError::InvalidSyntax(self.usage().to_owned()));
        }
        match parse_i32_digits(&ds) {
            None => Err(CommandError::InvalidSyntax(self.usage().to_owned())),
            Some(items) => {
                let shulkers: i32 = items / 1728;
                let stacks: i32 = (items % 1728) / 64;
                let left: i32 = (items % 1728) % 64;
                let mut out = String::new();
                out.append(chars_to_string(&u128_to_chars(items as u128)).as_str());
                out.append(" item");
                out.append(pluralize(items));
                out.append(" break");
                out.append(third_person_ending(items));
                out.append(" down into ");
                out.append(chars_to_string(&u128_to_chars(shulkers as u128)).as_str());
                out.append(" shulker");
                out.append(pluralize(shulkers));
                out.append(" plus ");
                out.append(chars_to_string(&u128_to_chars(stacks as u128)).as_str());
                out.append(" stack");
                out.append(pluralize(stacks));
                out.append(" and ");
                out.append(chars_to_string(&u128_to_chars(left as u128)).as_str());
                out.append(" item");
                out.append(pluralize(left));
                out.append(" left over");
                proof {
                    assert(out@ =~= mcshulkers_text(items as int));
                }
                Ok(out)
            },
        }
    }
}

/// Sixty-four times the value is exactly one item.
pub open spec fn times64_is_one(d: Decimal) -> bool {
    !d.neg && 64 * (d.mant as int) == pow10(d.scale as nat)
}

/// The reply of `mcitems` for a stack count.
pub open spec fn mcitems_text(d: Decimal) -> Seq<char> {
    dec_canon(d) + " stack"@ + (if crate::decimal::decimal_is_one(d) {
        Seq::<char>::empty()
    } else {
        seq!['s']
    }) + " break"@ + (if crate::decimal::decimal_is_one(d) {
        seq!['s']
    } else {
        Seq::<char>::empty()
    }) + " down into "@ + dec_str(times64_spec(d) as nat) + " item"@ + (if times64_is_one(d) {
        Seq::<char>::empty()
    } else {
        seq!['s']
    })
}

/// What `mcitems` replies for permitted callers: digits and a dot are read
/// as a stack count, possibly fractional; an unreadable number is a usage
/// error and an overlarge one is out of range.
pub open spec fn mcitems_spec(input: Seq<char>) -> Result<Seq<char>, CommandErrorView> {
    let ds = unsigned_number_chars(input);
    if ds.len() == 0 {
        Err(CommandErrorView::InvalidSyntax("Usage: <number of stacks>"@))
    } else {
        match parse_decimal_spec(ds) {
            NumParse::Bad => Err(CommandErrorView::InvalidSyntax("Usage: <number of stacks>"@)),
            NumParse::TooBig => Err(CommandErrorView::BadUsage("I dunno lol"@)),
            NumParse::Value(d) => Ok(mcitems_text(d)),
        }
    }
}

pub struct McItemsCommand;

impl Command for McItemsCommand {
    open spec fn name_spec(&self) -> Seq<char> {
        "mcitems"@
    }

    open spec fn usage_spec(&self) -> Seq<char> {
        "Usage: <number of stacks>"@
    }

    open spec fn execute_ensures(
        &self,
        config: ConfigView,
        role: RoleView,
        input: Seq<char>,
        r: Result<Seq<char>, CommandErrorView>,
    ) -> bool {
        if has_perm(config, "cmd.mcitems"@, role, config.roles.len() as nat) {
            r == mcitems_spec(input)
        } else {
            r == Err::<Seq<char>, CommandErrorView>(CommandErrorView::NoPerms)
        }
    }

    fn name(&self) -> (r: &'static str) {
        "mcitems"
    }

    fn usage(&self) -> (r: &'static str) {
        "Usage: <number of stacks>"
    }

    fn about(&self) -> &'static str {
        "Converts a given amount of Minecraft stacks (64) to the item count."
    }

    fn execute(&self, config: &Config, role: &Role, input: &String) -> (r: Result<
        String,
        CommandError,
    >) {
        if !check_permission(config, "cmd.mcitems".to_owned(), role) {
            return Err(CommandError::NoPerms);
        }
        let chars = str_to_chars(input.as_str());
        let ds = filter_unsigned_number_chars(&chars);
        if ds.len() == 0 {
            return Err(CommandError::InvalidSyntax(self.usage().to_owned()));
        }
        proof {
            lemma_unsigned_number_chars_all(chars@);
        }
        match parse_decimal_chars(&ds) {
            NumParse::Bad => Err(CommandError::InvalidSyntax(self.usage().to_owned())),
            NumParse::TooBig => Err(CommandError::BadUsage("I dunno lol".to_owned())),
            NumParse::Value(d) => {
                proof {
                    assert(is_digit_char(ds@[0]) || crate::decimal::is_dot(ds@[0]));
                    assert(!d.neg);
                    crate::decimal::lemma_pow10_values();
                }
                let items = decimal_times64(&d);
                let one_stack = decimal_eq_one(&d);
                let p = crate::decimal::pow10_u128(d.scale);
                let one_item = 64 * d.mant == p;
                let stacks_str = chars_to_string(&crate::decimal::decimal_canon_chars(&d));
                let mut out = String::new();
                out.append(stacks_str.as_str());
                out.append(" stack");
                out.append(if one_stack {
                    ""
                } else {
                    "s"
                });
                out.append(" break");
                out.append(if one_stack {
                    "s"
                } else {
                    ""
                });
                out.append(" down into ");
                out.append(chars_to_string(&u128_to_chars(items)).as_str());
                out.append(" item");
                out.append(if one_item {
                    ""
                } else {
                    "s"
                });
                proof {
                    reveal_strlit("s");
                    reveal_strlit("");
                    assert(out@ =~= mcitems_text(d));
                }
                Ok(out)
            },
        }
    }
}

} // verus!
