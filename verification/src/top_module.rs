//! The synthesis top module around the segmentation kernel: input and output
//! registers, clocked, with a synchronous reset, wrapped around the
//! combinational `kernel_segmentation_step` function.
use vstd::prelude::*;
use vstd::string::StringExecFns;

verus! {

/// Why the top module could not be built.
#[derive(Copy, Clone, Debug, PartialEq, Eq, Structural)]
pub enum TopModuleError {
    /// The kernel signature has fewer than four ports (output and three
    /// inputs).
    TooFewPorts,
}

/// The text of the top module, piece by piece; the decimal numbers go
/// between the pieces.
pub const HEAD: &'static str = "module segmentation_step_top(\ninput wire clk,\ninput wire rst,\ninput wire [";

pub const CORE_IN: &'static str = ":0] core_in,\ninput wire [";

pub const POINT_IN: &'static str = ":0] point_in,\ninput wire [";

pub const STATE_IN: &'static str = ":0] state_in,\noutput reg [";

pub const OUT_PORT: &'static str = ":0] out\n);\nreg [";

pub const CORE_REG: &'static str = ":0] core_reg;\nreg [";

pub const POINT_REG: &'static str = ":0] point_reg;\nreg [";

pub const STATE_REG: &'static str = ":0] state_reg;\nwire [";

pub const COMB_OUT: &'static str = ":0] comb_out;\n\nassign comb_out = kernel_segmentation_step(core_reg, point_reg, state_reg);\n\nalways @(posedge clk) begin\nif (rst) begin\ncore_reg <= {";

pub const POINT_RESET: &'static str = "{1'b0}};\npoint_reg <= {";

pub const STATE_RESET: &'static str = "{1'b0}};\nstate_reg <= {";

pub const OUT_RESET: &'static str = "{1'b0}};\nout <= {";

pub const BODY: &'static str = "{1'b0}};\nend else begin\ncore_reg <= core_in;\npoint_reg <= point_in;\nstate_reg <= state_in;\nout <= comb_out;\nend\nend\n\n";

pub const TAIL: &'static str = "\nendmodule\n";

/// The character of decimal digit `d`.
pub open spec fn digit_char(d: nat) -> char {
    ('0' as int + d) as char
}

/// `n` written in decimal, without leading zeros.
pub open spec fn decimal(n: nat) -> Seq<char>
    decreases n,
{
    if n < 10 {
        seq![digit_char(n)]
    } else {
        decimal(n / 10).push(digit_char(n % 10))
    }
}

/// The top module for a kernel whose output port is `out_w` bits wide and
/// whose three input ports (core, point, state) are `in0_w`, `in1_w` and
/// `in2_w` bits wide: every port, and every register, is declared
/// `[width - 1:0]`, each register resets to `{width{1'b0}}`, and the text of
/// the kernel function `function` closes the module.
pub open spec fn top_module_text(
    function: Seq<char>,
    out_w: nat,
    in0_w: nat,
    in1_w: nat,
    in2_w: nat,
) -> Seq<char> {
    let out_msb = decimal((out_w - 1) as nat);
    let in0_msb = decimal((in0_w - 1) as nat);
    let in1_msb = decimal((in1_w - 1) as nat);
    let in2_msb = decimal((in2_w - 1) as nat);
    HEAD@ + in0_msb + CORE_IN@ + in1_msb + POINT_IN@ + in2_msb + STATE_IN@ + out_msb + OUT_PORT@
        + in0_msb + CORE_REG@ + in1_msb + POINT_REG@ + in2_msb + STATE_REG@ + out_msb + COMB_OUT@
        + decimal(in0_w) + POINT_RESET@ + decimal(in1_w) + STATE_RESET@ + decimal(in2_w)
        + OUT_RESET@ + decimal(out_w) + BODY@ + function + TAIL@
}

/// The one-character text of decimal digit `d`.
fn digit_text(d: usize) -> (t: &'static str)
    requires
        d < 10,
    ensures
        t@ == seq![digit_char(d as nat)],
{
    proof {
        reveal_strlit("0");
        reveal_strlit("1");
        reveal_strlit("2");
        reveal_strlit("3");
        reveal_strlit("4");
        reveal_strlit("5");
        reveal_strlit("6");
        reveal_strlit("7");
        reveal_strlit("8");
        reveal_strlit("9");
    }
    if d == 0 {
        "0"
    } else if d == 1 {
        "1"
    } else if d == 2 {
        "2"
    } else if d == 3 {
        "3"
    } else if d == 4 {
        "4"
    } else if d == 5 {
        "5"
    } else if d == 6 {
        "6"
    } else if d == 7 {
        "7"
    } else if d == 8 {
        "8"
    } else {
        "9"
    }
}

/// Appends `n` in decimal to `s`.
fn append_decimal(s: &mut String, n: usize)
    ensures
        final(s)@ == old(s)@ + decimal(n as nat),
    decreases n,
{
    if n >= 10 {
        append_decimal(s, n / 10);
    }
    s.append(digit_text(n % 10));
    proof {
        if n >= 10 {
            assert(old(s)@ + decimal((n / 10) as nat) + seq![digit_char((n % 10) as nat)] =~= old(
                s,
            )@ + decimal(n as nat));
        } else {
            assert(old(s)@ + seq![digit_char(n as nat)] =~= old(s)@ + decimal(n as nat));
        }
    }
}

/// Appends a piece of text to `s`.
fn append_text(s: &mut String, t: &str)
    ensures
        final(s)@ == old(s)@ + t@,
{
    s.append(t);
}

/// The top module around the segmentation kernel, from the kernel
/// function's text and the port widths read from its signature: the output
/// port first, then the core, point and state inputs. Widths after the
/// fourth are ignored; fewer than four ports is an error.
pub fn segmentation_top_module(function: &str, widths: &Vec<usize>) -> (r: Result<
    String,
    TopModuleError,
>)
    requires
        forall|i: int| 0 <= i < widths.len() && i < 4 ==> #[trigger] widths@[i] >= 1,
    ensures
        r is Err <==> widths.len() < 4,
        r matches Err(e) ==> e == TopModuleError::TooFewPorts,
        r matches Ok(s) ==> s@ == top_module_text(
            function@,
            widths@[0] as nat,
            widths@[1] as nat,
            widths@[2] as nat,
            widths@[3] as nat,
        ),
{
    if widths.len() < 4 {
        return Err(TopModuleError::TooFewPorts);
    }
    let out_w = widths[0];
    let in0_w = widths[1];
    let in1_w = widths[2];
    let in2_w = widths[3];
    let out_msb = out_w - 1;
    let in0_msb = in0_w - 1;
    let in1_msb = in1_w - 1;
    let in2_msb = in2_w - 1;
    let mut s = String::new();
    append_text(&mut s, HEAD);
    append_decimal(&mut s, in0_msb);
    append_text(&mut s, CORE_IN);
    append_decimal(&mut s, in1_msb);
    append_text(&mut s, POINT_IN);
    append_decimal(&mut s, in2_msb);
    append_text(&mut s, STATE_IN);
    append_decimal(&mut s, out_msb);
    append_text(&mut s, OUT_PORT);
    append_decimal(&mut s, in0_msb);
    append_text(&mut s, CORE_REG);
    append_decimal(&mut s, in1_msb);
    append_text(&mut s, POINT_REG);
    append_decimal(&mut s, in2_msb);
    append_text(&mut s, STATE_REG);
    append_decimal(&mut s, out_msb);
    append_text(&mut s, COMB_OUT);
    append_decimal(&mut s, in0_w);
    append_text(&mut s, POINT_RESET);
    append_decimal(&mut s, in1_w);
    append_text(&mut s, STATE_RESET);
    append_decimal(&mut s, in2_w);
    append_text(&mut s, OUT_RESET);
    append_decimal(&mut s, out_w);
    append_text(&mut s, BODY);
    append_text(&mut s, function);
    append_text(&mut s, TAIL);
    Ok(s)
}

} // verus!
