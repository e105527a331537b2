//! Which files may share hashes between runs.

use crate::fsutil;
use crate::fsutil::FileId;
use crate::text;
use vstd::prelude::*;

verus! {

/// The identity does not tell files apart: it has no three parts, or the two that
/// number the file are both zero.
pub open spec fn is_degenerate(identity: Seq<char>) -> bool {
    let parts = text::split_on(identity, ':');
    parts.len() != 3 || (parts[1] == "0"@ && parts[2] == "0"@)
}

/// Whether an identity does not tell files apart, so that a hash must not be kept for
/// it.
pub fn identity_is_degenerate(identity: &str) -> (r: bool)
    ensures
        r == is_degenerate(identity@),
{
    let parts = text::split(identity, ':');
    let ghost all = text::texts(parts@);
    if parts.len() != 3 {
        return true;
    }
    assert(parts@[1]@ == all[1]);
    assert(parts@[2]@ == all[2]);
    text::same(parts[1].as_str(), "0") && text::same(parts[2].as_str(), "0")
}

/// A decimal number holds no colon.
proof fn decimal_no_colon(n: nat)
    ensures
        forall|i: int| 0 <= i < text::decimal(n).len() ==> text::decimal(n)[i] != ':',
{
    text::law_decimal_value(n);
    assert forall|i: int| 0 <= i < text::decimal(n).len() implies text::decimal(n)[i] != ':' by {
        assert(text::is_digit(text::decimal(n)[i]));
    }
}

/// Only zero is written as zero.
proof fn decimal_zero(n: nat)
    ensures
        (text::decimal(n) == "0"@) == (n == 0),
{
    reveal_strlit("0");
    text::law_decimal_value(n);
    text::law_decimal_value(0);
    assert(text::decimal(0) =~= "0"@);
}

/// Where files are numbered in one part, no hash is kept for them; where they are
/// numbered in two, none is kept exactly where both are zero.
pub proof fn law_which_identities_are_kept(id: FileId)
    ensures
        is_degenerate(fsutil::identity_text(id)) == match id {
            FileId::Unix(_, _) => true,
            FileId::Windows(_, high, low) => high == 0 && low == 0,
        },
{
    reveal_strlit(":");
    match id {
        FileId::Unix(dev, ino) => {
            let a = text::decimal(dev as nat);
            let b = text::decimal(ino as nat);
            decimal_no_colon(dev as nat);
            decimal_no_colon(ino as nat);
            let parts = seq![a, b];
            assert(text::join_with(parts, seq![':']) =~= fsutil::identity_text(id)) by {
                assert(parts.drop_last() =~= seq![a]);
                reveal_with_fuel(text::join_with, 2);
            }
            text::law_join_split(parts, ':');
        },
        FileId::Windows(volume, high, low) => {
            let a = text::decimal(volume as nat);
            let b = text::decimal(high as nat);
            let c = text::decimal(low as nat);
            decimal_no_colon(volume as nat);
            decimal_no_colon(high as nat);
            decimal_no_colon(low as nat);
            decimal_zero(high as nat);
            decimal_zero(low as nat);
            let parts = seq![a, b, c];
            assert(text::join_with(parts, seq![':']) =~= fsutil::identity_text(id)) by {
                assert(parts.drop_last() =~= seq![a, b]);
                assert(seq![a, b].drop_last() =~= seq![a]);
                reveal_with_fuel(text::join_with, 3);
            }
            text::law_join_split(parts, ':');
        },
    }
}

} // verus!
