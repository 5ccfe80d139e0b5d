//! The exact argument lists handed to the external document tools. Building
//! them is pure computation and verified here; spawning the tools is I/O and
//! stays outside the library.

use vstd::prelude::*;
use vstd::string::*;

use crate::strutil::{spec_u64_str, u64_to_string};

verus! {

/// What the page labeler is asked to overlay on a document.
#[derive(Debug, PartialEq)]
pub struct DenoArgs {
    pub in_path: String,
    pub out_path: String,
    pub left_text: String,
    pub right_text: String,
    pub bottom_text: String,
    pub bottom_link: String,
}

/// The labeler's command line: the script run with read/write access, the
/// input and output paths, the four texts, and the font.
pub open spec fn spec_deno_args(
    args: DenoArgs,
    script_path: Seq<char>,
    font_path: Seq<char>,
) -> Seq<Seq<char>> {
    seq![
        "run"@,
        "--allow-read"@,
        "--allow-write"@,
        script_path,
        "-i"@,
        args.in_path@,
        "-o"@,
        args.out_path@,
        "-l"@,
        args.left_text@,
        "-r"@,
        args.right_text@,
        "-b"@,
        args.bottom_text@,
        "-u"@,
        args.bottom_link@,
        "-f"@,
        font_path,
    ]
}

pub fn deno_args(args: &DenoArgs, script_path: &str, font_path: &str) -> (r: Vec<String>)
    ensures
        r.deep_view() == spec_deno_args(*args, script_path@, font_path@),
{
    let mut r: Vec<String> = Vec::new();
    r.push("run".to_owned());
    r.push("--allow-read".to_owned());
    r.push("--allow-write".to_owned());
    r.push(script_path.to_owned());
    r.push("-i".to_owned());
    r.push(args.in_path.clone());
    r.push("-o".to_owned());
    r.push(args.out_path.clone());
    r.push("-l".to_owned());
    r.push(args.left_text.clone());
    r.push("-r".to_owned());
    r.push(args.right_text.clone());
    r.push("-b".to_owned());
    r.push(args.bottom_text.clone());
    r.push("-u".to_owned());
    r.push(args.bottom_link.clone());
    r.push("-f".to_owned());
    r.push(font_path.to_owned());
    proof {
        assert(r.deep_view() =~= spec_deno_args(*args, script_path@, font_path@));
    }
    r
}

/// The image converter's command line: fit the image into a fixed box and
/// write the single-page document.
pub open spec fn spec_img2pdf_args(image_path: Seq<char>, out_path: Seq<char>) -> Seq<Seq<char>> {
    seq!["--imgsize"@, "595x5000"@, "--fit"@, "into"@, image_path, "-o"@, out_path]
}

pub fn img2pdf_args(image_path: &str, out_path: &str) -> (r: Vec<String>)
    ensures
        r.deep_view() == spec_img2pdf_args(image_path@, out_path@),
{
    let mut r: Vec<String> = Vec::new();
    r.push("--imgsize".to_owned());
    r.push("595x5000".to_owned());
    r.push("--fit".to_owned());
    r.push("into".to_owned());
    r.push(image_path.to_owned());
    r.push("-o".to_owned());
    r.push(out_path.to_owned());
    proof {
        assert(r.deep_view() =~= spec_img2pdf_args(image_path@, out_path@));
    }
    r
}

/// The renderer's command line: UTF-8, a fixed zoom, the fixed page width,
/// and the requested page height and top/bottom margin, then input and
/// output.
pub open spec fn spec_renderer_args(
    height_mm: int,
    margin_mm: int,
    input: Seq<char>,
    output: Seq<char>,
) -> Seq<Seq<char>> {
    seq![
        "--encoding"@,
        "utf-8"@,
        "--zoom"@,
        "1.4"@,
        "--page-width"@,
        "210mm"@,
        "--page-height"@,
        spec_u64_str(height_mm) + "mm"@,
        "-T"@,
        spec_u64_str(margin_mm) + "mm"@,
        "-B"@,
        spec_u64_str(margin_mm) + "mm"@,
        input,
        output,
    ]
}

pub fn renderer_args(height_mm: u64, margin_mm: u64, input: &str, output: &str) -> (r: Vec<String>)
    ensures
        r.deep_view() == spec_renderer_args(height_mm as int, margin_mm as int, input@, output@),
{
    let mut height = u64_to_string(height_mm);
    height.append("mm");
    let mut margin = u64_to_string(margin_mm);
    margin.append("mm");
    let mut r: Vec<String> = Vec::new();
    r.push("--encoding".to_owned());
    r.push("utf-8".to_owned());
    r.push("--zoom".to_owned());
    r.push("1.4".to_owned());
    r.push("--page-width".to_owned());
    r.push("210mm".to_owned());
    r.push("--page-height".to_owned());
    r.push(height);
    r.push("-T".to_owned());
    r.push(margin.clone());
    r.push("-B".to_owned());
    r.push(margin);
    r.push(input.to_owned());
    r.push(output.to_owned());
    proof {
        assert(r.deep_view() =~= spec_renderer_args(
            height_mm as int,
            margin_mm as int,
            input@,
            output@,
        ));
    }
    r
}

/// The page-numbering command line: overlay the running page number in the
/// bottom right corner with the bundled font.
pub open spec fn spec_page_number_args(
    font_path: Seq<char>,
    in_path: Seq<char>,
    out_path: Seq<char>,
) -> Seq<Seq<char>> {
    seq![
        "-add-text"@,
        "\u{441}\u{442}. %Page"@,
        "-bottomright"@,
        "5 5"@,
        "-load-ttf"@,
        "Roboto="@ + font_path,
        "-font"@,
        "Roboto"@,
        "-font-size"@,
        "11"@,
        in_path,
        "-o"@,
        out_path,
    ]
}

pub fn page_number_args(font_path: &str, in_path: &str, out_path: &str) -> (r: Vec<String>)
    ensures
        r.deep_view() == spec_page_number_args(font_path@, in_path@, out_path@),
{
    let mut font = String::new();
    font.append("Roboto=");
    font.append(font_path);
    let mut r: Vec<String> = Vec::new();
    r.push("-add-text".to_owned());
    r.push("\u{441}\u{442}. %Page".to_owned());
    r.push("-bottomright".to_owned());
    r.push("5 5".to_owned());
    r.push("-load-ttf".to_owned());
    r.push(font);
    r.push("-font".to_owned());
    r.push("Roboto".to_owned());
    r.push("-font-size".to_owned());
    r.push("11".to_owned());
    r.push(in_path.to_owned());
    r.push("-o".to_owned());
    r.push(out_path.to_owned());
    proof {
        assert(r.deep_view() =~= spec_page_number_args(font_path@, in_path@, out_path@));
    }
    r
}

/// The OCR engine's command line: Russian and English text, no optimization,
/// the fixed engine mode, plain document output.
pub open spec fn spec_ocr_args(in_path: Seq<char>, out_path: Seq<char>) -> Seq<Seq<char>> {
    seq![
        "-l"@,
        "rus+eng"@,
        "-O0"@,
        "--tesseract-oem"@,
        "1"@,
        "--output-type"@,
        "pdf"@,
        in_path,
        out_path,
    ]
}

pub fn ocr_args(in_path: &str, out_path: &str) -> (r: Vec<String>)
    ensures
        r.deep_view() == spec_ocr_args(in_path@, out_path@),
{
    let mut r: Vec<String> = Vec::new();
    r.push("-l".to_owned());
    r.push("rus+eng".to_owned());
    r.push("-O0".to_owned());
    r.push("--tesseract-oem".to_owned());
    r.push("1".to_owned());
    r.push("--output-type".to_owned());
    r.push("pdf".to_owned());
    r.push(in_path.to_owned());
    r.push(out_path.to_owned());
    proof {
        assert(r.deep_view() =~= spec_ocr_args(in_path@, out_path@));
    }
    r
}

} // verus!
