use vstd::prelude::*;
use crate::text::{chars_of, string_of};

verus! {

/// What the emitter was asked to do.
pub struct Config {
    /// Whether a line break ends the output.
    pub newline: bool,
    /// Whether backslash escapes are decoded.
    pub interp: bool,
}

/// One step of joining: once the text so far starts with `$`, each further token is
/// replaced by the value looked up for it; before that, the token is copied and
/// followed by a space.
pub open spec fn join_step(prev: Seq<char>, arg: Seq<char>, value: Seq<char>) -> Seq<char> {
    if prev.len() > 0 && prev[0] == '$' {
        prev + value
    } else {
        prev + arg + seq![' ']
    }
}

/// The tokens `args` joined in order, `values[i]` standing for the value looked up
/// for `args[i]`.
pub open spec fn joined(args: Seq<Seq<char>>, values: Seq<Seq<char>>) -> Seq<char>
    decreases args.len(),
{
    if args.len() == 0 {
        Seq::empty()
    } else {
        join_step(
            joined(args.drop_last(), values.take(args.len() - 1)),
            args.last(),
            values[args.len() - 1],
        )
    }
}

/// The text of a list of strings.
pub open spec fn texts(v: Seq<String>) -> Seq<Seq<char>> {
    v.map_values(|s: String| s@)
}

/// Joins the tokens `args` into one text, ended by a line break when `config.newline`
/// holds. When the first token starts with `$`, each later token is replaced by
/// `values` at its index: the value of the variable that the token names without its
/// first character, which the caller looks up (empty when it is not set).
pub fn build_string(config: &Config, args: &Vec<String>, values: &Vec<String>) -> (r: String)
    requires
        values.len() == args.len(),
    ensures
        r@ == joined(texts(args@), texts(values@)) + (if config.newline {
            seq!['\n']
        } else {
            Seq::empty()
        }),
{
    let mut tmp: Vec<char> = Vec::new();
    let mut i: usize = 0;
    while i < args.len()
        invariant
            values.len() == args.len(),
            i <= args.len(),
            tmp@ == joined(texts(args@).take(i as int), texts(values@).take(i as int)),
        decreases args.len() - i,
    {
        let ghost prev = tmp@;
        if tmp.len() > 0 && tmp[0] == '$' {
            let mut value = chars_of(values[i].as_str());
            tmp.append(&mut value);
        } else {
            let mut arg = chars_of(args[i].as_str());
            tmp.append(&mut arg);
            tmp.push(' ');
        }
        proof {
            let a = texts(args@).take(i + 1);
            let v = texts(values@).take(i + 1);
            assert(a.drop_last() =~= texts(args@).take(i as int));
            assert(v.take(i as int) =~= texts(values@).take(i as int));
            assert(tmp@ =~= join_step(prev, args@[i as int]@, values@[i as int]@));
        }
        i = i + 1;
    }
    assert(texts(args@).take(args.len() as int) =~= texts(args@));
    assert(texts(values@).take(args.len() as int) =~= texts(values@));
    if config.newline {
        tmp.push('\n');
    }
    string_of(&tmp)
}

} // verus!
