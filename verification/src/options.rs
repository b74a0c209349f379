//! Startup options, assembled by folding a list of settings over the
//! defaults.

use vstd::prelude::*;

verus! {

/// The runtime's startup options.
pub struct Options {
    pub port: i32,
}

/// One setting to apply on top of the defaults.
#[derive(Clone, Copy)]
pub enum OptionSetting {
    Port(i32),
}

/// The options after applying one setting.
pub open spec fn apply_setting(o: Options, s: OptionSetting) -> Options {
    match s {
        OptionSetting::Port(p) => Options { port: p },
    }
}

/// The options after applying a list of settings in order.
pub open spec fn apply_all(o: Options, s: Seq<OptionSetting>) -> Options
    decreases s.len(),
{
    if s.len() == 0 {
        o
    } else {
        apply_setting(apply_all(o, s.drop_last()), s.last())
    }
}

/// A setting that picks the listening port.
pub fn with_port(port: i32) -> (r: OptionSetting)
    ensures
        r == OptionSetting::Port(port),
{
    OptionSetting::Port(port)
}

/// Folds the given settings, in order, over the default options.
pub fn load_option(opts: &Vec<OptionSetting>) -> (r: Options)
    ensures
        r == apply_all(Options { port: 0 }, opts@),
{
    let mut options = Options { port: 0 };
    let mut i: usize = 0;
    while i < opts.len()
        invariant
            i <= opts@.len(),
            options == apply_all(Options { port: 0 }, opts@.subrange(0, i as int)),
        decreases opts@.len() - i,
    {
        match opts[i] {
            OptionSetting::Port(p) => {
                options.port = p;
            },
        }
        proof {
            assert(opts@.subrange(0, i + 1).drop_last() =~= opts@.subrange(0, i as int));
            assert(opts@.subrange(0, i + 1).last() == opts@[i as int]);
        }
        i = i + 1;
    }
    proof {
        assert(opts@.subrange(0, opts@.len() as int) =~= opts@);
    }
    options
}

} // verus!
