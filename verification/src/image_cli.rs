//! Argument handling and file naming of the batch image resizer.

use vstd::prelude::*;
use crate::text::{
    chars_of, decimal, find_char, index_of_from, lemma_decimal_value, lemma_index_of_from_at, lines,
    parse_u32_range, parse_u32_spec, push_decimal, push_str, split_lines, string_of_range, trim,
    trim_bounds, views,
};

verus! {

/// Settings of a run.
pub struct Config {
    /// File that lists the images, one per line.
    pub list_path: String,
    /// Width of the resized images.
    pub width: u32,
    /// Height of the resized images.
    pub height: u32,
    /// Directory that receives the resized images.
    pub output_dir: String,
}

/// What `--resize WxH` gives: the text before the first `x` is the width,
/// the text after it up to any next `x` is the height; both are parsed as
/// `u32`.
pub open spec fn parse_resize_spec(s: Seq<char>) -> Result<(u32, u32), Seq<char>> {
    let x = index_of_from(s, 0, 'x');
    if x >= s.len() {
        Err("Invalid format (expected widthxheight)"@)
    } else {
        let w = s.subrange(0, x);
        let h = s.subrange(x + 1, index_of_from(s, x + 1, 'x'));
        match parse_u32_spec(w) {
            None => Err("bad width"@),
            Some(wv) => match parse_u32_spec(h) {
                None => Err("bad height"@),
                Some(hv) => Ok((wv, hv)),
            },
        }
    }
}

/// A size written as `WIDTHxHEIGHT`, both in decimal, reads back as the
/// same size.
pub proof fn law_parse_resize_round_trip(w: u32, h: u32)
    ensures
        parse_resize_spec(decimal(w as nat) + seq!['x'] + decimal(h as nat)) == Ok::<(u32, u32), Seq<char>>((w, h)),
{
    let dw = decimal(w as nat);
    let dh = decimal(h as nat);
    lemma_decimal_value(w as nat);
    lemma_decimal_value(h as nat);
    let s = dw + seq!['x'] + dh;
    let x = dw.len() as int;
    assert(s[x] == 'x');
    assert forall|j: int| 0 <= j < x implies s[j] != 'x' by {
        assert(s[j] == dw[j]);
    }
    lemma_index_of_from_at(s, 0, x, 'x');
    assert forall|j: int| x + 1 <= j < s.len() implies s[j] != 'x' by {
        assert(s[j] == dh[j - x - 1]);
    }
    lemma_index_of_from_at(s, x + 1, s.len() as int, 'x');
    assert(s.subrange(0, x) =~= dw);
    assert(s.subrange(x + 1, s.len() as int) =~= dh);
    assert(dw[0] != '+');
    assert(dh[0] != '+');
}

/// Parses a `WIDTHxHEIGHT` size.
pub fn parse_resize(s: &str) -> (r: Result<(u32, u32), String>)
    ensures
        match parse_resize_spec(s@) {
            Ok(wh) => r == Ok::<(u32, u32), String>(wh),
            Err(m) => r matches Err(e) && e@ == m,
        },
{
    let v = chars_of(s);
    let x = find_char(&v, 0, 'x');
    if x == v.len() {
        return Err(String::from_str("Invalid format (expected widthxheight)"));
    }
    let y = find_char(&v, x + 1, 'x');
    let width = match parse_u32_range(&v, 0, x) {
        Some(w) => w,
        None => {
            return Err(String::from_str("bad width"));
        },
    };
    let height = match parse_u32_range(&v, x + 1, y) {
        Some(h) => h,
        None => {
            return Err(String::from_str("bad height"));
        },
    };
    Ok((width, height))
}

/// The options read from `args[i..]`, given those read before: `None` where
/// an option lacks its value (the reading panics there), else the list file
/// and size, or the first error.
pub open spec fn scan_args(
    args: Seq<Seq<char>>,
    i: int,
    files: Option<Seq<char>>,
    resize: Option<(u32, u32)>,
) -> Option<Result<(Option<Seq<char>>, Option<(u32, u32)>), Seq<char>>>
    decreases args.len() - i,
{
    if i < 0 || i >= args.len() {
        Some(Ok((files, resize)))
    } else if args[i] == "--files"@ {
        if i + 1 >= args.len() {
            None
        } else {
            scan_args(args, i + 2, Some(args[i + 1]), resize)
        }
    } else if args[i] == "--resize"@ {
        if i + 1 >= args.len() {
            None
        } else {
            match parse_resize_spec(args[i + 1]) {
                Ok(wh) => scan_args(args, i + 2, files, Some(wh)),
                Err(m) => Some(Err(m)),
            }
        }
    } else {
        Some(Err("Unknown arg: "@ + args[i]))
    }
}

/// The settings that the command line `args` (the program name first) and
/// the output directory (`None` when `MYME_FILES_PATH` is not set) give, or
/// the error message.
pub open spec fn parse_args_spec(args: Seq<Seq<char>>, output_dir: Option<Seq<char>>, output_dir_exists: bool)
    -> Result<(Seq<char>, u32, u32, Seq<char>), Seq<char>>
{
    match scan_args(args, 1, None, None) {
        Some(Ok((files, resize))) => match files {
            None => Err("Missing --files"@),
            Some(f) => match resize {
                None => Err("Missing --resize"@),
                Some((w, h)) => match output_dir {
                    None => Err("MYME_FILES_PATH not set"@),
                    Some(d) => if !output_dir_exists {
                        Err("Output dir does not exist"@)
                    } else {
                        Ok((f, w, h, d))
                    },
                },
            },
        },
        Some(Err(m)) => Err(m),
        None => Err(seq![]),
    }
}

/// Reads the settings from the command line `args` (the program name first),
/// the value of `MYME_FILES_PATH` (`None` when unset) and whether that
/// directory exists.
pub fn parse_args(args: &Vec<String>, output_dir: Option<String>, output_dir_exists: bool) -> (r: Result<Config, String>)
    requires
        scan_args(views(args@), 1, None, None) is Some,
    ensures
        match parse_args_spec(views(args@), match output_dir { Some(d) => Some(d@), None => None }, output_dir_exists) {
            Ok((f, w, h, d)) => r matches Ok(c) && c.list_path@ == f && c.width == w && c.height == h && c.output_dir@ == d,
            Err(m) => r matches Err(e) && e@ == m,
        },
{
    let ghost a = views(args@);
    let files_flag = String::from_str("--files");
    let resize_flag = String::from_str("--resize");
    let mut list_path: Option<String> = None;
    let mut resize: Option<(u32, u32)> = None;
    let mut i: usize = 1;
    while i < args.len()
        invariant
            a == views(args@),
            files_flag@ == "--files"@,
            resize_flag@ == "--resize"@,
            i >= 1,
            scan_args(a, 1, None, None) is Some,
            scan_args(a, i as int, match list_path { Some(f) => Some(f@), None => None }, resize)
                == scan_args(a, 1, None, None),
        decreases args@.len() - i,
    {
        assert(a[i as int] == args@[i as int]@);
        if args[i] == files_flag {
            i = i + 1;
            assert(a[i as int] == args@[i as int]@);
            list_path = Some(args[i].clone());
        } else if args[i] == resize_flag {
            i = i + 1;
            assert(a[i as int] == args@[i as int]@);
            match parse_resize(args[i].as_str()) {
                Ok(wh) => {
                    resize = Some(wh);
                },
                Err(e) => {
                    return Err(e);
                },
            }
        } else {
            let mut m = String::from_str("Unknown arg: ");
            push_str(&mut m, args[i].as_str());
            return Err(m);
        }
        i = i + 1;
    }
    let list_path = match list_path {
        Some(p) => p,
        None => {
            return Err(String::from_str("Missing --files"));
        },
    };
    let (width, height) = match resize {
        Some(wh) => wh,
        None => {
            return Err(String::from_str("Missing --resize"));
        },
    };
    let output_dir = match output_dir {
        Some(d) => d,
        None => {
            return Err(String::from_str("MYME_FILES_PATH not set"));
        },
    };
    if !output_dir_exists {
        return Err(String::from_str("Output dir does not exist"));
    }
    Ok(Config { list_path, width, height, output_dir })
}

/// The last component of a path as `Path::file_name` gives it, when that
/// exists and is text.
pub uninterp spec fn path_file_name(path: Seq<char>) -> Option<Seq<char>>;

/// The path `Path::join` gives for a directory and a relative file name.
pub uninterp spec fn path_join(dir: Seq<char>, name: Seq<char>) -> Seq<char>;

/// Calls `Path::file_name` on `path` and keeps the result when it is text.
/// The contract names the result `path_file_name` of the path; the rules
/// of path components are not restated.
#[verifier::external_body]
fn file_name_of(path: &str) -> (r: Option<String>)
    ensures
        r matches Some(n) ==> path_file_name(path@) == Some(n@),
        r is None ==> path_file_name(path@) is None,
{
    std::path::Path::new(path).file_name().and_then(|s| s.to_str()).map(|s| s.to_string())
}

/// Calls `Path::join` with `dir` and `name`. The contract names the result
/// `path_join` of the two; how separators are placed is not restated.
#[verifier::external_body]
fn join_path(dir: &str, name: &str) -> (r: String)
    ensures
        r@ == path_join(dir@, name@),
{
    std::path::Path::new(dir).join(name).to_string_lossy().into_owned()
}

/// The name of the resized copy of `image_path`: the file name up to its first
/// `.` (`image` when the path has no file name), then `_WIDTHxHEIGHT_INDEX.png`.
pub open spec fn output_file_name(image_path: Seq<char>, width: u32, height: u32, index: usize) -> Seq<char> {
    let base = match path_file_name(image_path) {
        Some(b) => b,
        None => "image"@,
    };
    let name = base.subrange(0, index_of_from(base, 0, '.'));
    name + "_"@ + decimal(width as nat) + "x"@ + decimal(height as nat) + "_"@ + decimal(index as nat) + ".png"@
}

/// The path of the resized copy of the image `image_path`, the `index`-th of
/// the list, in `output_dir`.
pub fn build_output_path(image_path: &str, output_dir: &str, width: u32, height: u32, index: usize) -> (r: String)
    ensures
        r@ == path_join(output_dir@, output_file_name(image_path@, width, height, index)),
{
    let base = match file_name_of(image_path) {
        Some(b) => b,
        None => String::from_str("image"),
    };
    let v = chars_of(base.as_str());
    let dot = find_char(&v, 0, '.');
    let mut name = string_of_range(&v, 0, dot);
    push_str(&mut name, "_");
    push_decimal(&mut name, width as u64);
    push_str(&mut name, "x");
    push_decimal(&mut name, height as u64);
    push_str(&mut name, "_");
    push_decimal(&mut name, index as u64);
    push_str(&mut name, ".png");
    join_path(output_dir, name.as_str())
}

/// The images to process: each line of the list whose text is not blank,
/// with its position among the lines.
pub open spec fn image_jobs(ls: Seq<Seq<char>>) -> Seq<(int, Seq<char>)>
    decreases ls.len(),
{
    if ls.len() == 0 {
        seq![]
    } else {
        let rest = image_jobs(ls.drop_last());
        if trim(ls.last()).len() == 0 {
            rest
        } else {
            rest.push(((ls.len() - 1) as int, ls.last()))
        }
    }
}

/// The views of numbered lines.
pub open spec fn jobs_view(v: Seq<(usize, String)>) -> Seq<(int, Seq<char>)> {
    v.map_values(|e: (usize, String)| (e.0 as int, e.1@))
}

/// The numbered lines of an image list that name an image.
pub fn entries_to_process(content: &str) -> (r: Vec<(usize, String)>)
    ensures
        jobs_view(r@) == image_jobs(lines(content@)),
{
    let ls = split_lines(content);
    let ghost lv = views(ls@);
    let mut r: Vec<(usize, String)> = Vec::new();
    let mut i: usize = 0;
    while i < ls.len()
        invariant
            i <= ls@.len(),
            lv == views(ls@),
            lv == lines(content@),
            jobs_view(r@) == image_jobs(lv.subrange(0, i as int)),
        decreases ls@.len() - i,
    {
        let v = chars_of(ls[i].as_str());
        let (lo, hi) = trim_bounds(&v);
        let ghost pre = lv.subrange(0, i as int);
        assert(lv.subrange(0, i + 1).drop_last() =~= pre);
        assert(lv[i as int] == ls@[i as int]@);
        if lo < hi {
            let line = ls[i].clone();
            let ghost old_r = r@;
            r.push((i, line));
            assert(jobs_view(r@) =~= jobs_view(old_r).push((i as int, lv[i as int])));
        }
        i = i + 1;
    }
    assert(lv.subrange(0, lv.len() as int) =~= lv);
    r
}

} // verus!
