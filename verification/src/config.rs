//! The application identifier, decimal formatting, the deterministic install
//! path and catalog link of an item, and the config patch: rewrite the two
//! workshop keys of a line-oriented config file, preserving every other line
//! verbatim.

use vstd::prelude::*;
use vstd::string::StringExecFns;
use crate::text::append_range;
use crate::text::chars_to_string;
use crate::text::lemma_nonnl_run_end;
use crate::text::nonnl_run_end;
use crate::text::str_chars;
use crate::text::trim;
use crate::text::trim_ws;

verus! {

/// The game's application identifier in the catalog.
pub const APP_ID: u32 = 1521580;

/// The decimal digit character for `d`.
pub open spec fn dec_digit(d: int) -> char {
    if d == 0 {
        '0'
    } else if d == 1 {
        '1'
    } else if d == 2 {
        '2'
    } else if d == 3 {
        '3'
    } else if d == 4 {
        '4'
    } else if d == 5 {
        '5'
    } else if d == 6 {
        '6'
    } else if d == 7 {
        '7'
    } else if d == 8 {
        '8'
    } else {
        '9'
    }
}

/// The decimal digits of `n`, most significant first, no sign, no padding.
pub open spec fn dec_str(n: int) -> Seq<char>
    decreases n,
{
    if n < 10 {
        seq![dec_digit(n)]
    } else {
        dec_str(n / 10) + seq![dec_digit(n % 10)]
    }
}

fn dec_digit_char(d: u64) -> (c: char)
    requires
        d < 10,
    ensures
        c == dec_digit(d as int),
{
    if d == 0 {
        '0'
    } else if d == 1 {
        '1'
    } else if d == 2 {
        '2'
    } else if d == 3 {
        '3'
    } else if d == 4 {
        '4'
    } else if d == 5 {
        '5'
    } else if d == 6 {
        '6'
    } else if d == 7 {
        '7'
    } else if d == 8 {
        '8'
    } else {
        '9'
    }
}

/// The decimal digits of `n`.
pub fn u64_to_dec(n: u64) -> (out: Vec<char>)
    ensures
        out@ == dec_str(n as int),
{
    let mut m = n / 10;
    let mut tmp: Vec<char> = Vec::new();
    let ghost mut acc = seq![dec_digit((n % 10) as int)];
    tmp.push(dec_digit_char(n % 10));
    while m > 0
        invariant
            m > 0 ==> dec_str(n as int) == dec_str(m as int) + acc,
            m == 0 ==> dec_str(n as int) == acc,
            tmp@.len() == acc.len(),
            forall|j: int| 0 <= j < acc.len() ==> tmp@[j] == acc[acc.len() - 1 - j],
        decreases m,
    {
        let d = dec_digit_char(m % 10);
        tmp.push(d);
        proof {
            acc = seq![dec_digit((m % 10) as int)] + acc;
        }
        m = m / 10;
    }
    let mut out: Vec<char> = Vec::new();
    let mut t = tmp.len();
    while t > 0
        invariant
            t <= tmp@.len(),
            tmp@.len() == acc.len(),
            forall|j: int| 0 <= j < acc.len() ==> tmp@[j] == acc[acc.len() - 1 - j],
            out@ == acc.subrange(0, acc.len() - t),
        decreases t,
    {
        out.push(tmp[t - 1]);
        proof {
            assert(out@ =~= acc.subrange(0, acc.len() - (t - 1)));
        }
        t = t - 1;
    }
    proof {
        assert(out@ =~= acc);
    }
    out
}

/// The catalog page address of a workshop item.
pub open spec fn workshop_link_spec(id: u64) -> Seq<char> {
    "https://steamcommunity.com/sharedfiles/filedetails/?id="@ + dec_str(id as int)
}

pub fn workshop_link(id: u64) -> (r: String)
    ensures
        r@ == workshop_link_spec(id),
{
    let mut r = String::from_str("https://steamcommunity.com/sharedfiles/filedetails/?id=");
    let digits = chars_to_string(&u64_to_dec(id));
    r.append(digits.as_str());
    proof {
        assert(r@ =~= workshop_link_spec(id));
    }
    r
}

/// The deterministic install subdirectory of item `id` under the game's
/// install root.
pub open spec fn install_path_spec(dir: Seq<char>, id: u64) -> Seq<char> {
    dir + "/steamapps/workshop/content/"@ + dec_str(APP_ID as int) + "/"@ + dec_str(id as int)
}

/// The install path as characters.
pub fn install_path_chars(dir: &Vec<char>, id: u64) -> (out: Vec<char>)
    ensures
        out@ == install_path_spec(dir@, id),
{
    let mut out: Vec<char> = Vec::new();
    append_range(&mut out, dir, 0, dir.len());
    let mid = str_chars("/steamapps/workshop/content/");
    append_range(&mut out, &mid, 0, mid.len());
    let app = u64_to_dec(APP_ID as u64);
    append_range(&mut out, &app, 0, app.len());
    out.push('/');
    let digits = u64_to_dec(id);
    append_range(&mut out, &digits, 0, digits.len());
    proof {
        reveal_strlit("/");
        assert(dir@.subrange(0, dir@.len() as int) =~= dir@);
        assert(mid@.subrange(0, mid@.len() as int) =~= mid@);
        assert(app@.subrange(0, app@.len() as int) =~= app@);
        assert(digits@.subrange(0, digits@.len() as int) =~= digits@);
        assert(out@ =~= install_path_spec(dir@, id));
    }
    out
}

/// The install path of item `id` under `install_dir`.
pub fn install_path(install_dir: &str, id: u64) -> (r: String)
    ensures
        r@ == install_path_spec(install_dir@, id),
{
    let dir = str_chars(install_dir);
    chars_to_string(&install_path_chars(&dir, id))
}

/// Index of the first `=` in the line, or its length.
pub open spec fn find_eq(line: Seq<char>, i: int) -> int
    decreases line.len() - i,
{
    if i < 0 || i >= line.len() {
        line.len() as int
    } else if line[i] == '=' {
        i
    } else {
        find_eq(line, i + 1)
    }
}

/// One config line: a `WorkshopMapID` or `WorkshopFolderFullPath` assignment
/// is rewritten from its trimmed key and the selected item; every other line,
/// and every line without `=`, stays verbatim.
pub open spec fn patched_line(line: Seq<char>, id: u64, dir: Seq<char>) -> Seq<char> {
    let p = find_eq(line, 0);
    if p == line.len() {
        line
    } else {
        let key = trim(line.subrange(0, p));
        if key == "WorkshopMapID"@ {
            key + "="@ + dec_str(id as int)
        } else if key == "WorkshopFolderFullPath"@ {
            key + "="@ + install_path_spec(dir, id)
        } else {
            line
        }
    }
}

/// The patched config text from position `i` on: lines split on `\n`, a
/// carriage return before the break belonging to no line, rejoined with `\n`;
/// a trailing line break is not kept.
pub open spec fn patch_config_from(s: Seq<char>, i: int, id: u64, dir: Seq<char>) -> Seq<char>
    decreases s.len() - i,
{
    if i < 0 || i >= s.len() {
        Seq::<char>::empty()
    } else {
        let e = nonnl_run_end(s, i);
        let raw_end = if e < s.len() && e > i && s[e - 1] == '\r' {
            e - 1
        } else {
            e
        };
        let line = s.subrange(i, raw_end);
        proof {
            lemma_nonnl_run_end(s, i);
        }
        if e + 1 >= s.len() {
            patched_line(line, id, dir)
        } else {
            patched_line(line, id, dir) + seq!['\n'] + patch_config_from(s, e + 1, id, dir)
        }
    }
}

fn eq_chars(a: &Vec<char>, b: &Vec<char>) -> (r: bool)
    ensures
        r == (a@ == b@),
{
    if a.len() != b.len() {
        proof {
            assert(a@.len() != b@.len());
        }
        return false;
    }
    let mut k: usize = 0;
    while k < a.len()
        invariant
            k <= a@.len(),
            a@.len() == b@.len(),
            forall|j: int| 0 <= j < k ==> a@[j] == b@[j],
        decreases a@.len() - k,
    {
        if a[k] != b[k] {
            return false;
        }
        k = k + 1;
    }
    proof {
        assert(a@ =~= b@);
    }
    true
}

/// Rewrite one config line.
fn patch_line_vec(line: &Vec<char>, id: u64, dir: &Vec<char>) -> (out: Vec<char>)
    ensures
        out@ == patched_line(line@, id, dir@),
{
    let mut p: usize = 0;
    while p < line.len() && line[p] != '='
        invariant
            p <= line@.len(),
            find_eq(line@, 0) == find_eq(line@, p as int),
        decreases line@.len() - p,
    {
        p = p + 1;
    }
    if p == line.len() {
        let mut out: Vec<char> = Vec::new();
        append_range(&mut out, line, 0, line.len());
        proof {
            assert(out@ =~= line@);
        }
        return out;
    }
    let mut head: Vec<char> = Vec::new();
    append_range(&mut head, line, 0, p);
    proof {
        assert(head@ =~= line@.subrange(0, p as int));
    }
    let key = trim_ws(&head);
    let map_id = str_chars("WorkshopMapID");
    let folder = str_chars("WorkshopFolderFullPath");
    if eq_chars(&key, &map_id) {
        let ghost keyv = key@;
        let mut out = key;
        out.push('=');
        let digits = u64_to_dec(id);
        append_range(&mut out, &digits, 0, digits.len());
        proof {
            reveal_strlit("=");
            assert(digits@.subrange(0, digits@.len() as int) =~= digits@);
            assert(out@ =~= keyv + "="@ + dec_str(id as int));
        }
        out
    } else if eq_chars(&key, &folder) {
        let ghost keyv = key@;
        let mut out = key;
        out.push('=');
        let path = install_path_chars(dir, id);
        append_range(&mut out, &path, 0, path.len());
        proof {
            reveal_strlit("=");
            assert(path@.subrange(0, path@.len() as int) =~= path@);
            assert(out@ =~= keyv + "="@ + install_path_spec(dir@, id));
        }
        out
    } else {
        let mut out: Vec<char> = Vec::new();
        append_range(&mut out, line, 0, line.len());
        proof {
            assert(out@ =~= line@);
        }
        out
    }
}

/// Point the config at the selected map: rewrite the `WorkshopMapID` and
/// `WorkshopFolderFullPath` assignments, preserving every other line
/// verbatim. Reading and writing the file is the caller's work.
pub fn patch_config(content: &str, id: u64, install_dir: &str) -> (r: String)
    ensures
        r@ == patch_config_from(content@, 0, id, install_dir@),
{
    let v = str_chars(content);
    let dir = str_chars(install_dir);
    let mut out: Vec<char> = Vec::new();
    let mut i: usize = 0;
    while i < v.len()
        invariant
            i <= v@.len(),
            patch_config_from(v@, 0, id, dir@) == out@ + patch_config_from(v@, i as int, id, dir@),
            dir@ == install_dir@,
        decreases v@.len() - i,
    {
        let ghost pre_out = out@;
        let ghost i0 = i as int;
        proof {
            lemma_nonnl_run_end(v@, i as int);
        }
        let mut e = i;
        while e < v.len() && v[e] != '\n'
            invariant
                i <= e <= v@.len(),
                nonnl_run_end(v@, i as int) == nonnl_run_end(v@, e as int),
            decreases v@.len() - e,
        {
            e = e + 1;
        }
        proof {
            assert(nonnl_run_end(v@, i as int) == e as int);
        }
        let raw_end = if e < v.len() && e > i && v[e - 1] == '\r' {
            e - 1
        } else {
            e
        };
        let mut linev: Vec<char> = Vec::new();
        append_range(&mut linev, &v, i, raw_end);
        proof {
            assert(linev@ =~= v@.subrange(i as int, raw_end as int));
        }
        let patched = patch_line_vec(&linev, id, &dir);
        append_range(&mut out, &patched, 0, patched.len());
        proof {
            assert(patched@.subrange(0, patched@.len() as int) =~= patched@);
        }
        if e < v.len() && e + 1 < v.len() {
            out.push('\n');
            i = e + 1;
            proof {
                assert(out@ + patch_config_from(v@, i as int, id, dir@) =~= pre_out
                    + patch_config_from(v@, i0, id, dir@));
            }
        } else {
            i = v.len();
            proof {
                assert(out@ + patch_config_from(v@, i as int, id, dir@) =~= pre_out
                    + patch_config_from(v@, i0, id, dir@));
            }
        }
    }
    proof {
        assert(out@ + patch_config_from(v@, i as int, id, dir@) =~= out@);
    }
    chars_to_string(&out)
}

} // verus!
