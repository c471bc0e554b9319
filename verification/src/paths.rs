//! File-name helpers for the directory batch variant: select log files by
//! extension and derive each chart's output name.

use vstd::prelude::*;

use crate::tokenize::copy_range;

verus! {

/// The four bytes of the extension `.log`.
pub open spec fn log_ext() -> Seq<u8> {
    seq![46u8, 108u8, 111u8, 103u8]
}

/// The four bytes of the extension `.png`.
pub open spec fn png_ext() -> Seq<u8> {
    seq![46u8, 112u8, 110u8, 103u8]
}

/// The file name ends in `.log`.
pub open spec fn has_log_extension(name: Seq<u8>) -> bool {
    name.len() >= 4 && name.subrange(name.len() - 4, name.len() as int) == log_ext()
}

/// Runtime check of `has_log_extension`: only such files take part in
/// batch extraction.
pub fn is_log_file(name: &[u8]) -> (b: bool)
    ensures
        b == has_log_extension(name@),
{
    let n = name.len();
    if n < 4 {
        return false;
    }
    let b = name[n - 4] == 46 && name[n - 3] == 108 && name[n - 2] == 111 && name[n - 1] == 103;
    proof {
        if b {
            assert(name@.subrange(n - 4, n as int) =~= log_ext());
        } else {
            assert(name@.subrange(n - 4, n as int) != log_ext()) by {
                if name@.subrange(n - 4, n as int) == log_ext() {
                    assert(name@[n - 4] == log_ext()[0]);
                    assert(name@[n - 3] == log_ext()[1]);
                    assert(name@[n - 2] == log_ext()[2]);
                    assert(name@[n - 1] == log_ext()[3]);
                }
            }
        }
    }
    b
}

/// The chart name of a log file: the input name with its `.log` extension
/// replaced by `.png`.
pub fn chart_path_for(name: &[u8]) -> (r: Vec<u8>)
    requires
        has_log_extension(name@),
    ensures
        r@ == name@.subrange(0, name@.len() - 4) + png_ext(),
{
    let n = name.len();
    let mut r = copy_range(name, 0, n - 4);
    r.push(46);
    r.push(112);
    r.push(110);
    r.push(103);
    proof {
        assert(r@ =~= name@.subrange(0, name@.len() - 4) + png_ext());
    }
    r
}

} // verus!