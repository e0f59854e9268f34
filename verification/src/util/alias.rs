//! Alias resolution: a typed command token is lower-cased and looked up in
//! the alias lists; the canonical command owning the matching list is the
//! resolved name. When several lists claim the same alias the one scanned
//! last wins; a token no list claims resolves to itself.

use vstd::prelude::*;

use crate::config::Config;
use crate::text::{chars_to_string, lower_char, lower_chars, str_to_chars, to_lower_chars};

verus! {

/// The canonical command whose alias list contains `name`, scanning the
/// table so that the last match wins.
pub open spec fn alias_target(
    aliases: Seq<(Seq<char>, Seq<Seq<char>>)>,
    name: Seq<char>,
) -> Option<Seq<char>>
    decreases aliases.len(),
{
    if aliases.len() == 0 {
        None
    } else if aliases.last().1.contains(name) {
        Some(aliases.last().0)
    } else {
        alias_target(aliases.drop_last(), name)
    }
}

/// What `resolve_alias` returns: the canonical command for the lower-cased
/// token, or the lower-cased token itself.
pub open spec fn resolve_alias_spec(
    aliases: Seq<(Seq<char>, Seq<Seq<char>>)>,
    typed: Seq<char>,
) -> Seq<char> {
    let lowered = lower_chars(typed);
    match alias_target(aliases, lowered) {
        Some(canonical) => canonical,
        None => lowered,
    }
}

pub fn list_contains(list: &Vec<String>, x: &String) -> (r: bool)
    ensures
        r == list.deep_view().contains(x@),
{
    let mut i: usize = 0;
    while i < list.len()
        invariant
            i <= list.len(),
            forall|j: int| 0 <= j < i ==> list.deep_view()[j] != x@,
        decreases list.len() - i,
    {
        if list[i] == *x {
            proof {
                assert(list.deep_view()[i as int] == x@);
            }
            return true;
        }
        i += 1;
    }
    proof {
        if list.deep_view().contains(x@) {
            let j = choose|j: int| 0 <= j < list.deep_view().len() && list.deep_view()[j] == x@;
            assert(list.deep_view()[j] != x@);
        }
    }
    false
}

/// Lower-cases the typed token and maps it through the alias table.
pub fn resolve_alias(config: &Config, typed: &String) -> (r: String)
    ensures
        r@ == resolve_alias_spec(config@.aliases, typed@),
{
    let ghost av = config@.aliases;
    let typed_chars = str_to_chars(typed.as_str());
    let lowered_chars = to_lower_chars(&typed_chars);
    let lowered = chars_to_string(&lowered_chars);
    let mut resolved: &String = &lowered;
    let ghost lw = lower_chars(typed@);
    proof {
        assert(alias_target(av.take(0), lw) is None) by {
            assert(av.take(0).len() == 0);
        }
    }
    let mut i: usize = 0;
    while i < config.aliases.len()
        invariant
            av == config@.aliases,
            av.len() == config.aliases.len(),
            i <= config.aliases.len(),
            lowered@ == lw,
            lw == lower_chars(typed@),
            match alias_target(av.take(i as int), lw) {
                Some(canonical) => resolved@ == canonical,
                None => resolved@ == lw,
            },
        decreases config.aliases.len() - i,
    {
        proof {
            let iv = i as int;
            assert(av[iv] == (config.aliases@[iv].0@, config.aliases@[iv].1.deep_view()));
        }
        if list_contains(&config.aliases[i].1, &lowered) {
            resolved = &config.aliases[i].0;
        }
        i += 1;
        proof {
            assert(av.take(i as int).last() == av[i - 1]);
            assert(av.take(i as int).drop_last() =~= av.take(i - 1));
        }
    }
    proof {
        assert(av.take(av.len() as int) =~= av);
    }
    resolved.clone()
}

proof fn lemma_lower_chars_idempotent(s: Seq<char>)
    ensures
        lower_chars(lower_chars(s)) == lower_chars(s),
{
    assert forall|i: int| 0 <= i < s.len() implies lower_char(lower_char(s[i])) == lower_char(
        s[i],
    ) by {}
    assert(lower_chars(lower_chars(s)) =~= lower_chars(s));
}

proof fn lemma_alias_target_is_key(aliases: Seq<(Seq<char>, Seq<Seq<char>>)>, name: Seq<char>)
    requires
        alias_target(aliases, name) is Some,
    ensures
        exists|j: int|
            0 <= j < aliases.len() && (#[trigger] aliases[j]).0 == alias_target(aliases, name)->0,
    decreases aliases.len(),
{
    if aliases.last().1.contains(name) {
        assert(aliases[aliases.len() - 1].0 == alias_target(aliases, name)->0);
    } else {
        lemma_alias_target_is_key(aliases.drop_last(), name);
        let j = choose|j: int|
            0 <= j < aliases.drop_last().len() && (#[trigger] aliases.drop_last()[j]).0
                == alias_target(aliases.drop_last(), name)->0;
        assert(aliases[j].0 == alias_target(aliases, name)->0);
    }
}

proof fn lemma_alias_target_unlisted(aliases: Seq<(Seq<char>, Seq<Seq<char>>)>, name: Seq<char>)
    requires
        forall|i: int| 0 <= i < aliases.len() ==> !(#[trigger] aliases[i]).1.contains(name),
    ensures
        alias_target(aliases, name) is None,
    decreases aliases.len(),
{
    if aliases.len() > 0 {
        assert(aliases[aliases.len() - 1] == aliases.last());
        assert forall|i: int|
            0 <= i < aliases.drop_last().len() implies !(#[trigger] aliases.drop_last()[
            i]).1.contains(name) by {
            assert(aliases.drop_last()[i] == aliases[i]);
        }
        lemma_alias_target_unlisted(aliases.drop_last(), name);
    }
}

/// An already-canonical name resolves to itself, in a table whose canonical
/// names are lower-case and are not themselves listed as aliases of anything.
pub proof fn lemma_resolve_canonical_fixed(
    aliases: Seq<(Seq<char>, Seq<Seq<char>>)>,
    name: Seq<char>,
)
    requires
        exists|j: int| 0 <= j < aliases.len() && (#[trigger] aliases[j]).0 == name,
        forall|j: int|
            0 <= j < aliases.len() ==> lower_chars((#[trigger] aliases[j]).0) == aliases[j].0,
        forall|i: int, j: int|
            0 <= i < aliases.len() && 0 <= j < aliases.len() ==> !(#[trigger] aliases[
            i]).1.contains((#[trigger] aliases[j]).0),
    ensures
        resolve_alias_spec(aliases, name) == name,
{
    let j = choose|j: int| 0 <= j < aliases.len() && (#[trigger] aliases[j]).0 == name;
    assert(lower_chars(name) == name);
    assert forall|i: int| 0 <= i < aliases.len() implies !(#[trigger] aliases[i]).1.contains(name)
        by {
        assert(!aliases[i].1.contains(aliases[j].0));
    }
    lemma_alias_target_unlisted(aliases, name);
}

/// Alias resolution is idempotent: resolving a resolved name changes
/// nothing, in a table whose canonical names are lower-case and are not
/// themselves listed as aliases of anything.
pub proof fn lemma_resolve_alias_idempotent(
    aliases: Seq<(Seq<char>, Seq<Seq<char>>)>,
    typed: Seq<char>,
)
    requires
        forall|j: int|
            0 <= j < aliases.len() ==> lower_chars((#[trigger] aliases[j]).0) == aliases[j].0,
        forall|i: int, j: int|
            0 <= i < aliases.len() && 0 <= j < aliases.len() ==> !(#[trigger] aliases[
            i]).1.contains((#[trigger] aliases[j]).0),
    ensures
        resolve_alias_spec(aliases, resolve_alias_spec(aliases, typed)) == resolve_alias_spec(
            aliases,
            typed,
        ),
{
    let lowered = lower_chars(typed);
    lemma_lower_chars_idempotent(typed);
    match alias_target(aliases, lowered) {
        Some(canonical) => {
            lemma_alias_target_is_key(aliases, lowered);
            lemma_resolve_canonical_fixed(aliases, canonical);
        },
        None => {
        },
    }
}

} // verus!
