//! Human-readable size formatting.

use vstd::prelude::*;

use crate::text::{append_u64, digit_char, render_u64};

verus! {

/// One binary order of magnitude.
pub const KIB: u64 = 1024;

/// The scaled value `size * 10 / 1024^k`, used to render one decimal digit.
pub open spec fn scaled_by(size: int, unit: int) -> int {
    size * 10 / unit
}

/// The exact character sequence `format_size` produces: bytes are printed
/// plainly, larger sizes with one decimal digit and a binary unit suffix.
pub open spec fn spec_format_size(size: int) -> Seq<char> {
    let kib: int = 1024;
    if size < kib {
        render_u64(size) + " B"@
    } else if size < kib * kib {
        spec_scaled(size, kib) + " KB"@
    } else if size < kib * kib * kib {
        spec_scaled(size, kib * kib) + " MB"@
    } else if size < kib * kib * kib * kib {
        spec_scaled(size, kib * kib * kib) + " GB"@
    } else {
        spec_scaled(size, kib * kib * kib * kib) + " TB"@
    }
}

/// Whole part, a dot, and one fractional digit of `size / unit`.
pub open spec fn spec_scaled(size: int, unit: int) -> Seq<char> {
    let scaled = scaled_by(size, unit);
    render_u64(scaled / 10) + "."@ + seq![digit_char(scaled % 10)]
}

fn append_scaled(out: &mut String, size: u64, unit: u64)
    requires
        1024 <= unit,
        unit <= size,
    ensures
        final(out)@ == old(out)@ + spec_scaled(size as int, unit as int),
{
    let scaled128: u128 = (size as u128) * 10 / (unit as u128);
    proof {
        assert((size as int) * 10 / (unit as int) <= size as int) by (nonlinear_arith)
            requires
                10 <= unit as int,
                0 <= size as int,
        {}
    }
    let scaled: u64 = scaled128 as u64;
    append_u64(out, scaled / 10);
    proof {
        reveal_strlit(".");
        assert("."@ =~= seq!['.']);
    }
    out.append(".");
    crate::text::push_digit(out, scaled % 10);
    proof {
        assert(scaled as int == scaled_by(size as int, unit as int));
        assert(old(out)@ + render_u64(scaled as int / 10) + "."@ + seq![
            digit_char(scaled as int % 10),
        ] =~= old(out)@ + spec_scaled(size as int, unit as int));
    }
}

/// Formats a byte count for display, e.g. a value in the hundreds of
/// mebibytes renders as `"156.2 MB"`.
pub fn format_size(size: u64) -> (r: String)
    ensures
        r@ == spec_format_size(size as int),
{
    let mut out = String::new();
    let kib: u64 = KIB;
    let mib: u64 = kib * kib;
    let gib: u64 = mib * kib;
    let tib: u64 = gib * kib;
    if size < kib {
        append_u64(&mut out, size);
        out.append(" B");
    } else if size < mib {
        append_scaled(&mut out, size, kib);
        out.append(" KB");
    } else if size < gib {
        append_scaled(&mut out, size, mib);
        out.append(" MB");
    } else if size < tib {
        append_scaled(&mut out, size, gib);
        out.append(" GB");
    } else {
        append_scaled(&mut out, size, tib);
        out.append(" TB");
    }
    proof {
        assert(out@ =~= spec_format_size(size as int));
    }
    out
}

} // verus!
