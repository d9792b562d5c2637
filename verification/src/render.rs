use vstd::prelude::*;
use vstd::string::StringExecFns;

use crate::field::Field;
use crate::tile::Tile;

verus! {

/// The ANSI escape that turns the foreground green.
pub open spec fn green_code() -> Seq<char> {
    seq!['\u{1b}', '[', '3', '2', 'm']
}

/// The ANSI escape that turns the foreground yellow.
pub open spec fn yellow_code() -> Seq<char> {
    seq!['\u{1b}', '[', '3', '3', 'm']
}

/// The ANSI escape that resets the foreground colour.
pub open spec fn reset_code() -> Seq<char> {
    seq!['\u{1b}', '[', '3', '9', 'm']
}

/// Relies on inline_colorization::color_green, the constant "\x1B[32m".
#[verifier::external_body]
fn color_green() -> (r: &'static str)
    ensures
        r@ == green_code(),
{
    inline_colorization::color_green
}

/// Relies on inline_colorization::color_yellow, the constant "\x1B[33m".
#[verifier::external_body]
fn color_yellow() -> (r: &'static str)
    ensures
        r@ == yellow_code(),
{
    inline_colorization::color_yellow
}

/// Relies on inline_colorization::color_reset, the constant "\x1B[39m".
#[verifier::external_body]
fn color_reset() -> (r: &'static str)
    ensures
        r@ == reset_code(),
{
    inline_colorization::color_reset
}

/// The text for one tile: a green `P` for a plant, a yellow `S` for a seed,
/// a space for bare soil, nothing for a tile without soil.
pub open spec fn tile_chars(t: Tile) -> Seq<char> {
    if t.plant {
        green_code() + seq!['P'] + reset_code()
    } else if t.seed {
        yellow_code() + seq!['S'] + reset_code()
    } else if t.soil {
        seq![' ']
    } else {
        Seq::empty()
    }
}

/// The character for one decimal digit.
pub open spec fn digit_char(d: int) -> char {
    if d == 0 {
        '0'
    } else if d == 1 {
        '1'
    } else if d == 2 {
        '2'
    } else if d == 3 {
        '3'
    } else if d == 4 {
        '4'
    } else if d == 5 {
        '5'
    } else if d == 6 {
        '6'
    } else if d == 7 {
        '7'
    } else if d == 8 {
        '8'
    } else {
        '9'
    }
}

/// The decimal digits of `n`, most significant first.
pub open spec fn dec_chars(n: int) -> Seq<char>
    decreases n,
{
    if n < 10 {
        seq![digit_char(n)]
    } else {
        dec_chars(n / 10).push(digit_char(n % 10))
    }
}

/// A row trailer index, right-aligned to a width of three characters.
pub open spec fn row_label(r: int) -> Seq<char> {
    if r < 10 {
        seq![' ', ' '] + dec_chars(r)
    } else if r < 100 {
        seq![' '] + dec_chars(r)
    } else {
        dec_chars(r)
    }
}

/// The text of one row of tiles, in order.
pub open spec fn row_chars(ts: Seq<Tile>) -> Seq<char>
    decreases ts.len(),
{
    if ts.len() == 0 {
        Seq::empty()
    } else {
        tile_chars(ts[0]) + row_chars(ts.drop_first())
    }
}

/// The text of all rows from row index `r` on: each row is `w` tile texts
/// followed by `|`, the row index right-aligned to width 3, and a newline.
pub open spec fn rows_chars(ts: Seq<Tile>, w: int, r: int) -> Seq<char>
    decreases ts.len(),
{
    if ts.len() == 0 || w < 1 {
        Seq::empty()
    } else if ts.len() <= w {
        row_chars(ts) + seq!['|'] + row_label(r) + seq!['\n']
    } else {
        row_chars(ts.take(w)) + seq!['|'] + row_label(r) + seq!['\n'] + rows_chars(
            ts.skip(w),
            w,
            r + 1,
        )
    }
}

/// The full grid dump: a blank line, the rows, and a final newline.
pub open spec fn spec_display(ts: Seq<Tile>, w: int) -> Seq<char> {
    seq!['\n'] + rows_chars(ts, w, 0) + seq!['\n']
}

/// Append one decimal digit.
fn append_digit(out: &mut String, d: usize)
    requires
        d < 10,
    ensures
        final(out)@ == old(out)@ + seq![digit_char(d as int)],
{
    proof {
        reveal_strlit("0");
        reveal_strlit("1");
        reveal_strlit("2");
        reveal_strlit("3");
        reveal_strlit("4");
        reveal_strlit("5");
        reveal_strlit("6");
        reveal_strlit("7");
        reveal_strlit("8");
        reveal_strlit("9");
    }
    if d == 0 {
        out.append("0");
        proof {
            assert(out@ =~= old(out)@ + seq![digit_char(d as int)]);
        }
    } else if d == 1 {
        out.append("1");
        proof {
            assert(out@ =~= old(out)@ + seq![digit_char(d as int)]);
        }
    } else if d == 2 {
        out.append("2");
        proof {
            assert(out@ =~= old(out)@ + seq![digit_char(d as int)]);
        }
    } else if d == 3 {
        out.append("3");
        proof {
            assert(out@ =~= old(out)@ + seq![digit_char(d as int)]);
        }
    } else if d == 4 {
        out.append("4");
        proof {
            assert(out@ =~= old(out)@ + seq![digit_char(d as int)]);
        }
    } else if d == 5 {
        out.append("5");
        proof {
            assert(out@ =~= old(out)@ + seq![digit_char(d as int)]);
        }
    } else if d == 6 {
        out.append("6");
        proof {
            assert(out@ =~= old(out)@ + seq![digit_char(d as int)]);
        }
    } else if d == 7 {
        out.append("7");
        proof {
            assert(out@ =~= old(out)@ + seq![digit_char(d as int)]);
        }
    } else if d == 8 {
        out.append("8");
        proof {
            assert(out@ =~= old(out)@ + seq![digit_char(d as int)]);
        }
    } else {
        out.append("9");
        proof {
            assert(out@ =~= old(out)@ + seq![digit_char(d as int)]);
        }
    }
}

/// Append the decimal digits of `n`, most significant first.
fn append_dec(out: &mut String, n: usize)
    ensures
        final(out)@ == old(out)@ + dec_chars(n as int),
    decreases n,
{
    if n < 10 {
        append_digit(out, n);
    } else {
        append_dec(out, n / 10);
        append_digit(out, n % 10);
        proof {
            assert(dec_chars(n as int) =~= dec_chars(n as int / 10) + seq![
                digit_char(n as int % 10),
            ]);
            assert(out@ =~= old(out)@ + dec_chars(n as int));
        }
    }
}

/// Append a row index right-aligned to width 3.
fn append_row_label(out: &mut String, r: usize)
    ensures
        final(out)@ == old(out)@ + row_label(r as int),
{
    proof {
        reveal_strlit(" ");
        reveal_strlit("  ");
    }
    if r < 10 {
        out.append("  ");
        let ghost mid = out@;
        append_dec(out, r);
        proof {
            assert(mid =~= old(out)@ + seq![' ', ' ']);
            assert(out@ =~= old(out)@ + row_label(r as int));
        }
    } else if r < 100 {
        out.append(" ");
        let ghost mid = out@;
        append_dec(out, r);
        proof {
            assert(mid =~= old(out)@ + seq![' ']);
            assert(out@ =~= old(out)@ + row_label(r as int));
        }
    } else {
        append_dec(out, r);
    }
}

/// Append the text of one tile.
fn append_tile(out: &mut String, t: Tile)
    ensures
        final(out)@ == old(out)@ + tile_chars(t),
{
    proof {
        reveal_strlit("P");
        reveal_strlit("S");
        reveal_strlit(" ");
    }
    if t.plant {
        out.append(color_green());
        out.append("P");
        out.append(color_reset());
        proof {
            assert(out@ =~= old(out)@ + tile_chars(t));
        }
    } else if t.seed {
        out.append(color_yellow());
        out.append("S");
        out.append(color_reset());
        proof {
            assert(out@ =~= old(out)@ + tile_chars(t));
        }
    } else if t.soil {
        out.append(" ");
        proof {
            assert(out@ =~= old(out)@ + tile_chars(t));
        }
    }
}

impl Field {
    /// The textual dump of the grid: one coloured character per tile, with a
    /// `|`-separated right-aligned row index after every `width` tiles, all
    /// framed by a leading and a trailing newline.
    pub fn display_field(&self) -> (out: String)
        requires
            self.wf(),
        ensures
            out@ == spec_display(self.tiles@, self.width as int),
    {
        let ghost ts = self.tiles@;
        let ghost w = self.width as int;
        let mut out = String::new();
        proof {
            reveal_strlit("\n");
        }
        out.append("\n");
        proof {
            assert(out@ =~= seq!['\n']);
            assert(ts.skip(0) =~= ts);
        }
        let width = self.width as usize;
        let height = self.height as usize;
        let mut r: usize = 0;
        while r < height
            invariant
                self.wf(),
                ts == self.tiles@,
                w == self.width as int,
                width == self.width as int,
                height == self.height as int,
                0 <= r <= height,
                out@ + rows_chars(ts.skip(r as int * w), w, r as int) + seq!['\n'] == spec_display(
                    ts,
                    w,
                ),
            decreases height - r,
        {
            proof {
                reveal_strlit("\n");
                reveal_strlit("|");
                assert((r + 1) * w == r * w + w) by (nonlinear_arith);
                assert(r as int * w + w <= ts.len()) by (nonlinear_arith)
                    requires
                        r < height,
                        1 <= w,
                        ts.len() == height * w,
                ;
            }
            let ghost rem = ts.skip(r as int * w);
            let row_start = r * width;
            let mut j: usize = 0;
            let ghost out_tail = seq!['|'] + row_label(r as int) + seq!['\n'] + rows_chars(
                ts.skip((r + 1) as int * w),
                w,
                r as int + 1,
            );
            proof {
                assert(rem.len() == ts.len() - r as int * w);
                if rem.len() <= w {
                    assert(ts.skip((r + 1) as int * w).len() == 0);
                    assert(rows_chars(ts.skip((r + 1) as int * w), w, r as int + 1)
                        =~= Seq::<char>::empty());
                    assert(rem =~= ts.subrange(r as int * w, r as int * w + w));
                    assert(rows_chars(rem, w, r as int) =~= row_chars(
                        ts.subrange(r as int * w, r as int * w + w),
                    ) + out_tail);
                } else {
                    assert(rem.take(w) =~= ts.subrange(r as int * w, r as int * w + w));
                    assert(rem.skip(w) =~= ts.skip((r + 1) as int * w));
                    assert(rows_chars(rem, w, r as int) =~= row_chars(
                        ts.subrange(r as int * w, r as int * w + w),
                    ) + out_tail);
                }
                assert(out@ + rows_chars(rem, w, r as int) =~= out@ + row_chars(
                    ts.subrange(r as int * w, r as int * w + w),
                ) + out_tail);
            }
            while j < width
                invariant
                    self.wf(),
                    ts == self.tiles@,
                    w == self.width as int,
                    width == self.width as int,
                    height == self.height as int,
                    0 <= r < height,
                    0 <= j <= width,
                    row_start == r as int * w,
                    row_start + width <= ts.len(),
                    out_tail == seq!['|'] + row_label(r as int) + seq!['\n'] + rows_chars(
                        ts.skip((r + 1) as int * w),
                        w,
                        r as int + 1,
                    ),
                    out@ + row_chars(ts.subrange(row_start as int + j, row_start as int + width))
                        + out_tail + seq!['\n'] == spec_display(ts, w),
                decreases width - j,
            {
                let ghost pre = out@;
                let ghost seg = ts.subrange(row_start as int + j, row_start as int + width);
                append_tile(&mut out, self.tiles[row_start + j]);
                proof {
                    assert(seg[0] == ts[row_start as int + j]);
                    assert(seg.drop_first() =~= ts.subrange(
                        row_start as int + j + 1,
                        row_start as int + width,
                    ));
                    assert(row_chars(seg) == tile_chars(seg[0]) + row_chars(seg.drop_first()));
                    assert(pre + row_chars(seg) =~= out@ + row_chars(seg.drop_first()));
                }
                j = j + 1;
            }
            let ghost pre_row = out@;
            proof {
                reveal_strlit("\n");
                reveal_strlit("|");
                assert(ts.subrange(row_start as int + width, row_start as int + width)
                    =~= Seq::<Tile>::empty());
                assert(pre_row + row_chars(
                    ts.subrange(row_start as int + width, row_start as int + width),
                ) =~= pre_row);
            }
            out.append("|");
            append_row_label(&mut out, r);
            out.append("\n");
            proof {
                assert(out@ =~= pre_row + seq!['|'] + row_label(r as int) + seq!['\n']);
                assert(pre_row + out_tail =~= out@ + rows_chars(
                    ts.skip((r + 1) as int * w),
                    w,
                    r as int + 1,
                ));
            }
            r = r + 1;
        }
        let ghost pre_end = out@;
        proof {
            reveal_strlit("\n");
            assert(r as int * w == ts.len()) by (nonlinear_arith)
                requires
                    r == height,
                    ts.len() == height * w,
            ;
            assert(rows_chars(ts.skip(r as int * w), w, r as int) =~= Seq::<char>::empty());
            assert(pre_end + rows_chars(ts.skip(r as int * w), w, r as int) =~= pre_end);
        }
        out.append("\n");
        proof {
            assert(out@ =~= pre_end + seq!['\n']);
            assert(out@ == spec_display(ts, w));
        }
        out
    }
}

} // verus!
