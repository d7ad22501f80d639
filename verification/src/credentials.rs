//! The credentials of the legacy account, read off what the credentials
//! script prints.
//!
//! The script prints shell lines such as `export NAME=value`. Every line
//! that holds the word `export` sets a variable: its second token gives
//! the name, before the first `=`, and the value, after the last. The
//! variables are kept in ascending order of their names; a name that is set
//! again takes the later value.

use crate::cmd_runner::env_views;
use crate::path::texts;
use crate::secret::{secret_text, SecretText};
use crate::text::{
    before_first, before_first_index, chars_of, range_equals, same_text, split_lines,
    split_whitespace, text_before, text_less, token_ranges, token_ranges_from, widen,
};
use vstd::prelude::*;
use vstd::string::*;

verus! {

/// Whether `word` stands somewhere in `s`.
pub open spec fn contains_word(s: Seq<char>, word: Seq<char>) -> bool {
    exists|i: int|
        0 <= i && i + word.len() <= s.len() && #[trigger] s.subrange(i, i + word.len()) == word
}

/// The part of `s` after the last `c`, or all of `s` where it holds none.
pub open spec fn after_last(s: Seq<char>, c: char) -> Seq<char>
    decreases s.len(),
{
    if s.len() > 0 && s.last() != c {
        after_last(s.drop_last(), c).push(s.last())
    } else {
        Seq::empty()
    }
}

/// What the lines set, in their order: a name and a value for every line
/// that holds `export`. `None` where such a line has no second token.
pub open spec fn exports_of(lines: Seq<Seq<char>>) -> Option<Seq<(Seq<char>, Seq<char>)>>
    decreases lines.len(),
{
    if lines.len() == 0 {
        Some(Seq::empty())
    } else {
        match exports_of(lines.drop_last()) {
            None => None,
            Some(before) => if !contains_word(lines.last(), "export"@) {
                Some(before)
            } else if split_whitespace(lines.last()).len() < 2 {
                None
            } else {
                let setting = split_whitespace(lines.last())[1];
                Some(before.push((before_first(setting, '='), after_last(setting, '='))))
            },
        }
    }
}

/// Where `name` stands, or would stand, among `variables`: at the first
/// one that does not come before it.
pub open spec fn variable_slot(variables: Seq<(Seq<char>, Seq<char>)>, name: Seq<char>) -> int
    decreases variables.len(),
{
    if variables.len() > 0 && text_before(variables[0].0, name) {
        1 + variable_slot(variables.drop_first(), name)
    } else {
        0
    }
}

/// `variables` with `name` set to `value`: in place where the name is
/// there, else at its slot.
pub open spec fn with_variable(
    variables: Seq<(Seq<char>, Seq<char>)>,
    name: Seq<char>,
    value: Seq<char>,
) -> Seq<(Seq<char>, Seq<char>)> {
    let k = variable_slot(variables, name);
    if k < variables.len() && variables[k].0 == name {
        variables.update(k, (name, value))
    } else {
        variables.insert(k, (name, value))
    }
}

/// The variables that `exports` leave set.
pub open spec fn variables_of(exports: Seq<(Seq<char>, Seq<char>)>) -> Seq<(Seq<char>, Seq<char>)>
    decreases exports.len(),
{
    if exports.len() == 0 {
        Seq::empty()
    } else {
        with_variable(variables_of(exports.drop_last()), exports.last().0, exports.last().1)
    }
}

/// Whether `word` stands somewhere in `s`.
pub fn has_word(s: &Vec<char>, word: &Vec<char>) -> (r: bool)
    ensures
        r == contains_word(s@, word@),
{
    if word.len() > s.len() {
        return false;
    }
    let last = s.len() - word.len();
    let mut i: usize = 0;
    loop
        invariant
            word.len() <= s.len(),
            last == s.len() - word.len(),
            i <= last,
            forall|j: int| 0 <= j < i ==> #[trigger] s@.subrange(j, j + word.len()) != word@,
        decreases last - i,
    {
        if range_equals(s, i, i + word.len(), word) {
            return true;
        }
        if i == last {
            return false;
        }
        i = i + 1;
    }
}

/// Start of the part of `s[lo..hi]` that comes after its last `c`.
fn after_last_index(s: &Vec<char>, lo: usize, hi: usize, c: char) -> (r: usize)
    requires
        lo <= hi <= s.len(),
    ensures
        lo <= r <= hi,
        s@.subrange(r as int, hi as int) == after_last(s@.subrange(lo as int, hi as int), c),
{
    let mut i = hi;
    while i > lo && s[i - 1] != c
        invariant
            lo <= i <= hi <= s.len(),
            after_last(s@.subrange(lo as int, hi as int), c) == after_last(
                s@.subrange(lo as int, i as int),
                c,
            ) + s@.subrange(i as int, hi as int),
        decreases i - lo,
    {
        proof {
            let cur = s@.subrange(lo as int, i as int);
            assert(cur.drop_last() =~= s@.subrange(lo as int, i - 1));
            assert(after_last(cur.drop_last(), c).push(cur.last()) + s@.subrange(
                i as int,
                hi as int,
            ) =~= after_last(cur.drop_last(), c) + s@.subrange(i - 1, hi as int));
        }
        i = i - 1;
    }
    proof {
        assert(after_last(s@.subrange(lo as int, i as int), c) =~= Seq::<char>::empty());
        assert(Seq::<char>::empty() + s@.subrange(i as int, hi as int) =~= s@.subrange(
            i as int,
            hi as int,
        ));
        assert(after_last(s@.subrange(lo as int, hi as int), c) =~= after_last(
            s@.subrange(lo as int, hi as int),
            c,
        ) + Seq::<char>::empty());
    }
    i
}

/// Sets `name` to `value` among `variables`; see [`with_variable`].
fn set_variable(variables: &mut Vec<(String, SecretText)>, name: String, value: SecretText)
    ensures
        env_views(final(variables)@) == with_variable(
            env_views(old(variables)@),
            name@,
            secret_text(value),
        ),
{
    let ghost before = env_views(variables@);
    let mut k: usize = 0;
    proof {
        assert(before.skip(0) =~= before);
    }
    while k < variables.len() && text_less(variables[k].0.as_str(), name.as_str())
        invariant
            k <= variables.len(),
            before == env_views(variables@),
            variable_slot(before, name@) == k + variable_slot(before.skip(k as int), name@),
        decreases variables.len() - k,
    {
        proof {
            assert(before.skip(k as int)[0] == before[k as int]);
            assert(before.skip(k as int).drop_first() =~= before.skip(k + 1));
        }
        k = k + 1;
    }
    proof {
        if k < variables.len() {
            assert(before.skip(k as int)[0] == before[k as int]);
        }
        assert(variable_slot(before, name@) == k);
    }
    if k < variables.len() && same_text(variables[k].0.as_str(), name.as_str()) {
        variables.set(k, (name, value));
        proof {
            assert(env_views(variables@) =~= with_variable(before, name@, secret_text(value)));
        }
    } else {
        variables.insert(k, (name, value));
        proof {
            assert(env_views(variables@) =~= with_variable(before, name@, secret_text(value)));
        }
    }
}

/// The environment variables that the output of the credentials script
/// sets; see [`exports_of`] and [`variables_of`]. `None` where a line
/// holds `export` but no second token.
pub fn legacy_credentials(stdout: &str) -> (r: Option<Vec<(String, SecretText)>>)
    ensures
        r.is_some() == exports_of(crate::text::lines(stdout@)).is_some(),
        r.is_some() ==> env_views(r.unwrap()@) == variables_of(
            exports_of(crate::text::lines(stdout@)).unwrap(),
        ),
{
    let all = split_lines(stdout);
    let ghost lines = texts(all@);
    let word = chars_of("export");
    let mut variables: Vec<(String, SecretText)> = Vec::new();
    let mut i: usize = 0;
    proof {
        assert(lines.take(0) =~= Seq::<Seq<char>>::empty());
        assert(env_views(variables@) =~= Seq::<(Seq<char>, Seq<char>)>::empty());
    }
    while i < all.len()
        invariant
            i <= all.len(),
            lines == texts(all@),
            lines == crate::text::lines(stdout@),
            word@ == "export"@,
            exports_of(lines.take(i as int)) is Some,
            env_views(variables@) == variables_of(exports_of(lines.take(i as int)).unwrap()),
        decreases all.len() - i,
    {
        let line = all[i].as_str();
        let chars = chars_of(line);
        proof {
            assert(lines.take(i + 1).drop_last() =~= lines.take(i as int));
            assert(lines.take(i + 1).last() == line@);
        }
        if has_word(&chars, &word) {
            let ranges = token_ranges(&chars);
            proof {
                assert(split_whitespace(line@).len() == ranges@.len());
            }
            if ranges.len() < 2 {
                proof {
                    lemma_failure_stays(lines, i + 1);
                }
                return None;
            }
            let (a, b) = ranges[1];
            proof {
                assert(token_ranges_from(chars@, 0)[1] == widen(ranges@)[1]);
                assert(split_whitespace(line@)[1] == chars@.subrange(a as int, b as int));
            }
            let key_end = before_first_index(&chars, a, b, '=');
            let value_start = after_last_index(&chars, a, b, '=');
            let name = String::from_str(line.substring_char(a, key_end));
            let value = SecretText::new(String::from_str(line.substring_char(value_start, b)));
            proof {
                let before = exports_of(lines.take(i as int)).unwrap();
                let now = exports_of(lines.take(i + 1)).unwrap();
                assert(now == before.push((name@, secret_text(value))));
                assert(now.drop_last() =~= before);
            }
            set_variable(&mut variables, name, value);
        }
        i = i + 1;
    }
    proof {
        assert(lines.take(i as int) =~= lines);
    }
    Some(variables)
}

/// Once a line cannot be read, no later line mends it.
proof fn lemma_failure_stays(lines: Seq<Seq<char>>, n: int)
    requires
        0 <= n <= lines.len(),
        exports_of(lines.take(n)) is None,
    ensures
        exports_of(lines) is None,
    decreases lines.len() - n,
{
    if n < lines.len() {
        assert(lines.take(n + 1).drop_last() =~= lines.take(n));
        lemma_failure_stays(lines, n + 1);
    } else {
        assert(lines.take(n) =~= lines);
    }
}

/// The environment variables that a login leaves set, given what the login
/// command printed: the exported credentials for the `legacy` account,
/// none for any other account, whose login leaves its credentials with
/// the tool itself. `None` where the credentials cannot be read.
pub fn login_credentials(account_dir: &str, stdout: &str) -> (r: Option<Vec<(String, SecretText)>>)
    ensures
        account_dir@ == "legacy"@ ==> {
            &&& r.is_some() == exports_of(crate::text::lines(stdout@)).is_some()
            &&& r.is_some() ==> env_views(r.unwrap()@) == variables_of(
                exports_of(crate::text::lines(stdout@)).unwrap(),
            )
        },
        account_dir@ != "legacy"@ ==> r.is_some() && r.unwrap()@.len() == 0,
{
    if same_text(account_dir, "legacy") {
        legacy_credentials(stdout)
    } else {
        Some(Vec::new())
    }
}

} // verus!
