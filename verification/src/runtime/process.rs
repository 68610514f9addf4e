//! Driving the bundled `container` CLI: the command's failure report.

use crate::text::{extend_str, string_of};
use vstd::prelude::*;

verus! {

/// The bundled CLI binary.
pub struct Cli {
    pub binary: String,
}

/// `args` joined with single spaces.
pub open spec fn spaced(args: Seq<Seq<char>>) -> Seq<char>
    decreases args.len(),
{
    if args.len() == 0 {
        seq![]
    } else if args.len() == 1 {
        args[0]
    } else {
        spaced(args.drop_last()) + seq![' '] + args.last()
    }
}

pub open spec fn spec_failure_message(args: Seq<Seq<char>>) -> Seq<char> {
    "`container "@ + spaced(args) + "` failed"@
}

/// What a failed CLI invocation is reported as: "`container <args>` failed".
pub fn failure_message(args: &Vec<String>) -> (r: String)
    ensures
        r@ == spec_failure_message(args@.map_values(|a: String| a@)),
{
    let ghost av = args@.map_values(|a: String| a@);
    let mut v: Vec<char> = Vec::new();
    let mut i: usize = 0;
    while i < args.len()
        invariant
            i <= args@.len(),
            av == args@.map_values(|a: String| a@),
            v@ == spaced(av.take(i as int)),
        decreases args@.len() - i,
    {
        assert(av.take(i + 1).drop_last() =~= av.take(i as int));
        if i > 0 {
            v.push(' ');
        }
        extend_str(&mut v, args[i].as_str());
        assert(i == 0 ==> av.take(1) =~= seq![av[0]]);
        i += 1;
    }
    assert(av.take(args@.len() as int) =~= av);
    let mut m: Vec<char> = Vec::new();
    extend_str(&mut m, "`container ");
    let mut k: usize = 0;
    while k < v.len()
        invariant
            k <= v@.len(),
            m@ == "`container "@ + v@.take(k as int),
        decreases v@.len() - k,
    {
        m.push(v[k]);
        assert(v@.take(k + 1) =~= v@.take(k as int).push(v@[k as int]));
        k += 1;
    }
    assert(v@.take(v@.len() as int) =~= v@);
    extend_str(&mut m, "` failed");
    string_of(m.as_slice())
}

} // verus!
