//! Running step commands: how a command is shown and what a failure carries.
use vstd::prelude::*;

use crate::text::{chars_of, string_from};

verus! {

/// What a command run is labelled with.
pub struct RunOptions<'a> {
    pub label: &'a str,
    pub step_name: &'a str,
}

/// A failed run of a command, with the captured output so callers can
/// classify the failure before reporting it.
#[derive(Debug)]
pub struct CommandFailure {
    /// `[step] label`, the header of the printed output tail.
    pub context: String,
    pub message: String,
    pub output: Vec<String>,
}

impl CommandFailure {
    pub fn new(context: String, message: String, output: Vec<String>) -> (res: CommandFailure)
        ensures
            res.context == context,
            res.message == message,
            res.output == output,
    {
        CommandFailure { context, message, output }
    }

    /// The last `n` lines of the output (all of it when shorter).
    pub fn tail(&self, n: usize) -> (res: Vec<String>)
        ensures
            crate::text::views(res@) == crate::text::views(self.output@).skip(
                if self.output@.len() > n {
                    self.output@.len() - n
                } else {
                    0
                },
            ),
    {
        let start = if self.output.len() > n {
            self.output.len() - n
        } else {
            0
        };
        let mut out: Vec<String> = Vec::new();
        let mut i = start;
        while i < self.output.len()
            invariant
                start <= i <= self.output@.len(),
                crate::text::views(out@) == crate::text::views(self.output@).subrange(start as int, i as int),
            decreases self.output@.len() - i,
        {
            let ghost o0 = out@;
            let line = self.output[i].clone();
            out.push(line);
            assert(crate::text::views(out@) =~= crate::text::views(o0).push(self.output@[i as int]@));
            assert(crate::text::views(out@) =~= crate::text::views(self.output@).subrange(start as int, i + 1));
            i = i + 1;
        }
        assert(crate::text::views(self.output@).subrange(start as int, self.output@.len() as int) =~= crate::text::views(self.output@).skip(start as int));
        out
    }
}

/// An argument as shown: quoted when it holds a space.
pub open spec fn shown_arg(a: Seq<char>) -> Seq<char> {
    if a.contains(' ') {
        seq!['"'] + a + seq!['"']
    } else {
        a
    }
}

/// The program followed by its shown arguments, separated by spaces.
pub open spec fn command_text(program: Seq<char>, args: Seq<Seq<char>>) -> Seq<char>
    decreases args.len(),
{
    if args.len() == 0 {
        program
    } else {
        command_text(program, args.drop_last()) + seq![' '] + shown_arg(args.last())
    }
}

/// How a command is shown: the program, then each argument (quoted when it
/// holds a space).
pub fn format_command(program: &str, args: &Vec<String>) -> (res: String)
    ensures
        res@ == command_text(program@, crate::text::views(args@)),
{
    let mut v = chars_of(program);
    let ghost av = crate::text::views(args@);
    let mut i: usize = 0;
    while i < args.len()
        invariant
            i <= args@.len(),
            av == crate::text::views(args@),
            v@ == command_text(program@, av.take(i as int)),
        decreases args@.len() - i,
    {
        let a = chars_of(args[i].as_str());
        assert(av.take((i + 1) as int).drop_last() =~= av.take(i as int));
        assert(av.take((i + 1) as int).last() == a@);
        let ghost v0 = v@;
        v.push(' ');
        if crate::text::contains_char(&a, ' ') {
            v.push('"');
            crate::text::append_chars(&mut v, &a);
            v.push('"');
        } else {
            crate::text::append_chars(&mut v, &a);
        }
        assert(v@ =~= v0 + seq![' '] + shown_arg(a@));
        i = i + 1;
    }
    assert(av.take(args@.len() as int) =~= av);
    string_from(&v)
}

/// A line cut to `max` characters: longer lines keep `max - 3` characters and
/// end in `...`.
pub open spec fn truncate_spec(s: Seq<char>, max: nat) -> Seq<char> {
    if s.len() <= max {
        s
    } else {
        s.take(max - 3) + seq!['.', '.', '.']
    }
}

/// Cuts a line for a spinner message.
pub fn truncate(s: &str, max: usize) -> (res: String)
    requires
        s@.len() <= max || max >= 3,
    ensures
        res@ == truncate_spec(s@, max as nat),
{
    let c = chars_of(s);
    if c.len() <= max {
        return string_from(&c);
    }
    let mut t = crate::text::slice(&c, 0, max - 3);
    t.push('.');
    t.push('.');
    t.push('.');
    assert(t@ =~= truncate_spec(s@, max as nat));
    string_from(&t)
}

/// A cut line is never longer than the limit.
pub proof fn law_truncate_within_limit(s: Seq<char>, max: nat)
    requires
        s.len() <= max || max >= 3,
    ensures
        truncate_spec(s, max).len() <= max,
        s.len() <= max ==> truncate_spec(s, max) == s,
{
}

} // verus!

