use lidar_clustering_hdl::{
    bit_widths_fit, parse_bit_widths, segmentation_top_module, TopModuleError,
};

/// The top module as the export tool's template spells it.
fn template(function: &str, out_w: usize, in0_w: usize, in1_w: usize, in2_w: usize) -> String {
    format!(
        "module segmentation_step_top(\n\
    input wire clk,\n\
    input wire rst,\n\
    input wire [{in0_msb}:0] core_in,\n\
    input wire [{in1_msb}:0] point_in,\n\
    input wire [{in2_msb}:0] state_in,\n\
    output reg [{out_msb}:0] out\n\
);\n\
    reg [{in0_msb}:0] core_reg;\n\
    reg [{in1_msb}:0] point_reg;\n\
    reg [{in2_msb}:0] state_reg;\n\
    wire [{out_msb}:0] comb_out;\n\
\n\
    assign comb_out = kernel_segmentation_step(core_reg, point_reg, state_reg);\n\
\n\
    always @(posedge clk) begin\n\
        if (rst) begin\n\
            core_reg <= {{{in0_w}{{1'b0}}}};\n\
            point_reg <= {{{in1_w}{{1'b0}}}};\n\
            state_reg <= {{{in2_w}{{1'b0}}}};\n\
            out <= {{{out_w}{{1'b0}}}};\n\
        end else begin\n\
            core_reg <= core_in;\n\
            point_reg <= point_in;\n\
            state_reg <= state_in;\n\
            out <= comb_out;\n\
        end\n\
    end\n\
\n\
{function}\n\
endmodule\n",
        in0_msb = in0_w - 1,
        in1_msb = in1_w - 1,
        in2_msb = in2_w - 1,
        out_msb = out_w - 1,
        in0_w = in0_w,
        in1_w = in1_w,
        in2_w = in2_w,
        out_w = out_w,
        function = function,
    )
}

#[test]
fn top_module_matches_the_template() {
    let function = "function [47:0] kernel_segmentation_step(input reg [163:0] arg_0, input reg [48:0] arg_1, input reg [9:0] arg_2);\nbegin\nend\nendfunction";
    let widths = parse_bit_widths(function.lines().next().unwrap()).unwrap();
    assert_eq!(widths, vec![48, 164, 49, 10]);
    let text = segmentation_top_module(function, &widths).unwrap();
    assert_eq!(text, template(function, 48, 164, 49, 10));
    assert!(text.starts_with("module segmentation_step_top(\ninput wire clk,\n"));
    assert!(text.contains("input wire [163:0] core_in,\n"));
    assert!(text.contains("core_reg <= {164{1'b0}};\n"));
    assert!(text.contains("output reg [47:0] out\n"));
    assert!(text.ends_with("endfunction\nendmodule\n"));
}

#[test]
fn top_module_of_one_bit_ports_and_extra_widths() {
    let widths = vec![1, 1, 10, 100, 7];
    let text = segmentation_top_module("F", &widths).unwrap();
    assert_eq!(text, template("F", 1, 1, 10, 100));
    assert!(text.contains("input wire [0:0] core_in,\n"));
    assert!(text.contains("state_reg <= {100{1'b0}};\n"));
}

#[test]
fn top_module_needs_four_ports() {
    assert_eq!(segmentation_top_module("F", &vec![8, 8, 8]), Err(TopModuleError::TooFewPorts));
    assert_eq!(segmentation_top_module("F", &vec![]), Err(TopModuleError::TooFewPorts));
}

#[test]
fn width_fit_check() {
    assert!(bit_widths_fit("[7:0] [0:7]"));
    assert!(bit_widths_fit("no ranges"));
    assert!(bit_widths_fit("[18446744073709551615:1]"));
    assert!(!bit_widths_fit("[3:0] [18446744073709551615:0]"));
    // reading stops at the first error, so later ranges do not count
    assert!(bit_widths_fit("[x:0] [18446744073709551615:0]"));
}
