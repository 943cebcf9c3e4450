//! The command that opens a file at a line in the user's editor.
//!
//! The editor is the configured one, else `$VISUAL`, else `$EDITOR`, else `vi`,
//! skipping blank values.  Its command line is split as a shell would split it.
//! When it names `{file}` or `{line}`, those are filled in; otherwise the line
//! is passed as `+LINE FILE`, or as `FILE:LINE` for Helix.
use vstd::prelude::*;

use crate::text::{chars_eq, chars_of, copy_chars, string_from_chars, trim_chars, trim_spec, views};

verus! {

/// Why no editor command could be made.
#[derive(Debug, Clone, PartialEq, Eq)]
pub enum EditorError {
    InvalidEditorCommand { command: String },
    EmptyEditorCommand,
}

/// How an editor takes the line to open at.
#[derive(Debug, Clone, Copy, PartialEq, Eq, Structural)]
pub enum LineArg {
    Plus,
    Colon,
}

/// The program to run and its arguments.
#[derive(Debug, Clone, PartialEq, Eq)]
pub struct EditorCommand {
    pub program: String,
    pub args: Vec<String>,
}

#[verifier::external_type_specification]
#[verifier::external_body]
pub struct ExParseError(shell_words::ParseError);

/// The words of a command line as `shell_words::split` splits it, or `None` where it fails.
pub uninterp spec fn shell_split(s: Seq<char>) -> Option<Seq<Seq<char>>>;

/// The words of a string vector as the contracts see them.
pub open spec fn words(v: Seq<String>) -> Seq<Seq<char>> {
    v.map_values(|s: String| s@)
}

/// Calls `shell_words::split`.  Its answer is a fixed function of the string, named here:
/// the words when it succeeds, `None` when it reports a parse error.
#[verifier::external_body]
fn shell_split_words(s: &str) -> (r: Result<Vec<String>, shell_words::ParseError>)
    ensures
        match r {
            Ok(v) => shell_split(s@) == Some(words(v@)),
            Err(_) => shell_split(s@) is None,
        },
{
    shell_words::split(s)
}

/// Whether a command is set: it holds more than whitespace.
pub open spec fn is_set(s: Seq<char>) -> bool {
    trim_spec(s).len() > 0
}

/// The editor to use: the configured one, else `visual`, else `editor`, else `vi`, each
/// only when set.
pub open spec fn pick_editor_spec(
    configured: Option<Seq<char>>,
    visual: Option<Seq<char>>,
    editor: Option<Seq<char>>,
) -> Seq<char> {
    match configured {
        Some(c) if is_set(c) => c,
        _ => match visual {
            Some(v) if is_set(v) => v,
            _ => match editor {
                Some(e) if is_set(e) => e,
                _ => "vi"@,
            },
        },
    }
}

/// Whether a command holds more than whitespace.
fn command_is_set(s: &str) -> (r: bool)
    ensures
        r == is_set(s@),
{
    let chars = chars_of(s);
    trim_chars(&chars).len() > 0
}

/// The editor to use: the configured one, else `visual`, else `editor`, else `vi`, skipping
/// values that are blank.
pub fn pick_editor(configured: Option<&str>, visual: Option<String>, editor: Option<String>) -> (r:
    String)
    ensures
        r@ == pick_editor_spec(
            match configured {
                Some(c) => Some(c@),
                None => None,
            },
            match visual {
                Some(v) => Some(v@),
                None => None,
            },
            match editor {
                Some(e) => Some(e@),
                None => None,
            },
        ),
{
    if let Some(c) = configured {
        if command_is_set(c) {
            return c.to_owned();
        }
    }
    if let Some(v) = visual {
        if command_is_set(v.as_str()) {
            return v;
        }
    }
    if let Some(e) = editor {
        if command_is_set(e.as_str()) {
            return e;
        }
    }
    proof {
        reveal_strlit("vi");
    }
    "vi".to_owned()
}

/// The words of an editor command line: an error when it does not split, or splits into
/// nothing.
pub fn split_command(template: &str) -> (r: Result<Vec<String>, EditorError>)
    ensures
        match shell_split(template@) {
            None => r matches Err(EditorError::InvalidEditorCommand { command }) && command@
                == template@,
            Some(ws) => if ws.len() == 0 {
                r matches Err(EditorError::EmptyEditorCommand)
            } else {
                r matches Ok(v) && words(v@) == ws
            },
        },
{
    match shell_split_words(template) {
        Err(_) => Err(EditorError::InvalidEditorCommand { command: template.to_owned() }),
        Ok(pieces) => {
            if pieces.len() == 0 {
                Err(EditorError::EmptyEditorCommand)
            } else {
                Ok(pieces)
            }
        },
    }
}

/// The last part of a path, as `Path::file_name` reads it: the last component that is not
/// empty or `.`; none when that is `..` or there is none.
pub open spec fn file_name_of(path: Seq<char>) -> Option<Seq<char>> {
    let parts = crate::text::split_on(path, '/');
    last_name(parts, parts.len() as int)
}

/// The last of the first `n` parts that is not empty or `.`; none when it is `..`.
pub open spec fn last_name(parts: Seq<Seq<char>>, n: int) -> Option<Seq<char>>
    decreases n,
{
    if n <= 0 {
        None
    } else {
        let part = parts[n - 1];
        if part.len() == 0 || part == "."@ {
            last_name(parts, n - 1)
        } else if part == ".."@ {
            None
        } else {
            Some(part)
        }
    }
}

/// The index of the last `.` in a name, if any.
pub open spec fn last_dot(name: Seq<char>, n: int) -> Option<int>
    decreases n,
{
    if n <= 0 {
        None
    } else if name[n - 1] == '.' {
        Some(n - 1)
    } else {
        last_dot(name, n - 1)
    }
}

/// A file name without its extension, as `Path::file_stem` gives it: the whole name when
/// it has no `.` but a leading one, else the part before the last `.`.
pub open spec fn stem_of(name: Seq<char>) -> Seq<char> {
    match last_dot(name, name.len() as int) {
        Some(i) => if i == 0 {
            name
        } else {
            name.take(i)
        },
        None => name,
    }
}

/// How the editor `editor` takes the line: Helix as `FILE:LINE`, others as `+LINE`.
pub open spec fn line_arg_spec(editor: Seq<char>) -> LineArg {
    let base = match file_name_of(editor) {
        Some(name) => stem_of(name),
        None => editor,
    };
    if base == "hx"@ {
        LineArg::Colon
    } else {
        LineArg::Plus
    }
}

/// The last component of a path that is not empty or `.`; none when it is `..`.
fn file_name_chars(path: &Vec<char>) -> (r: Option<Vec<char>>)
    ensures
        match file_name_of(path@) {
            Some(name) => r matches Some(v) && v@ == name,
            None => r is None,
        },
{
    let parts = crate::text::split_chars(path, '/');
    let ghost ps = views(parts@);
    let mut n = parts.len();
    let dot = dot_chars();
    let dots = dot_dot_chars();
    while n > 0
        invariant
            n <= parts.len(),
            ps == views(parts@),
            ps == crate::text::split_on(path@, '/'),
            dot@ == "."@,
            dots@ == ".."@,
            last_name(ps, ps.len() as int) == last_name(ps, n as int),
        decreases n,
    {
        let part = &parts[n - 1];
        assert(ps[n - 1] == part@);
        if part.len() == 0 || chars_eq(part, &dot) {
            n = n - 1;
        } else if chars_eq(part, &dots) {
            return None;
        } else {
            return Some(copy_chars(part));
        }
    }
    None
}

fn dot_chars() -> (r: Vec<char>)
    ensures
        r@ == "."@,
{
    proof {
        reveal_strlit(".");
    }
    chars_of(".")
}

fn dot_dot_chars() -> (r: Vec<char>)
    ensures
        r@ == ".."@,
{
    proof {
        reveal_strlit("..");
    }
    chars_of("..")
}

/// A file name without its extension.
fn stem_chars(name: &Vec<char>) -> (r: Vec<char>)
    ensures
        r@ == stem_of(name@),
{
    let mut n = name.len();
    while n > 0
        invariant
            n <= name.len(),
            last_dot(name@, name@.len() as int) == last_dot(name@, n as int),
        decreases n,
    {
        if name[n - 1] == '.' {
            let i = n - 1;
            if i == 0 {
                return copy_chars(name);
            }
            let mut r: Vec<char> = Vec::new();
            let mut k: usize = 0;
            while k < i
                invariant
                    k <= i < name.len(),
                    r@ == name@.take(k as int),
                decreases i - k,
            {
                r.push(name[k]);
                assert(name@.take(k as int + 1) == name@.take(k as int).push(name@[k as int]));
                k = k + 1;
            }
            return r;
        }
        n = n - 1;
    }
    copy_chars(name)
}

/// How an editor takes the line to open at: Helix (`hx`) as `FILE:LINE`, every other
/// editor as `+LINE FILE`.  The editor is known by its file name without extension.
pub fn line_arg_style(editor: &str) -> (r: LineArg)
    ensures
        r == line_arg_spec(editor@),
{
    let chars = chars_of(editor);
    let base = match file_name_chars(&chars) {
        Some(name) => stem_chars(&name),
        None => chars,
    };
    let hx = chars_of("hx");
    proof {
        reveal_strlit("hx");
    }
    if chars_eq(&base, &hx) {
        LineArg::Colon
    } else {
        LineArg::Plus
    }
}

/// Whether `pat` occurs in `s` at position `i`.
pub open spec fn occurs_at(s: Seq<char>, pat: Seq<char>, i: int) -> bool {
    0 <= i && i + pat.len() <= s.len() && s.subrange(i, i + pat.len()) == pat
}

/// Whether `pat` occurs in `s`.
pub open spec fn occurs_in(s: Seq<char>, pat: Seq<char>) -> bool {
    exists|i: int| occurs_at(s, pat, i)
}

/// `s` with each occurrence of the non-empty `pat` replaced by `with`, from left to right
/// without overlaps, as `str::replace` does it.
pub open spec fn replaced(s: Seq<char>, pat: Seq<char>, with: Seq<char>) -> Seq<char>
    decreases s.len(),
{
    if s.len() == 0 || pat.len() == 0 {
        s
    } else if occurs_at(s, pat, 0) {
        with + replaced(s.skip(pat.len() as int), pat, with)
    } else {
        seq![s[0]] + replaced(s.drop_first(), pat, with)
    }
}

/// The decimal digits of `n`.
pub open spec fn decimal_chars(n: nat) -> Seq<char>
    decreases n,
{
    if n < 10 {
        seq![digit_spec(n)]
    } else {
        decimal_chars(n / 10).push(digit_spec(n % 10))
    }
}

/// The digit character of `d`.
pub open spec fn digit_spec(d: nat) -> char {
    if d == 0 {
        '0'
    } else if d == 1 {
        '1'
    } else if d == 2 {
        '2'
    } else if d == 3 {
        '3'
    } else if d == 4 {
        '4'
    } else if d == 5 {
        '5'
    } else if d == 6 {
        '6'
    } else if d == 7 {
        '7'
    } else if d == 8 {
        '8'
    } else {
        '9'
    }
}

/// The digit character of `d`.
fn digit_char(d: u64) -> (r: char)
    requires
        d < 10,
    ensures
        r == digit_spec(d as nat),
{
    if d == 0 {
        '0'
    } else if d == 1 {
        '1'
    } else if d == 2 {
        '2'
    } else if d == 3 {
        '3'
    } else if d == 4 {
        '4'
    } else if d == 5 {
        '5'
    } else if d == 6 {
        '6'
    } else if d == 7 {
        '7'
    } else if d == 8 {
        '8'
    } else {
        '9'
    }
}

/// The decimal digits of `n`.
pub fn decimal_string(n: u64) -> (r: Vec<char>)
    ensures
        r@ == decimal_chars(n as nat),
    decreases n,
{
    if n < 10 {
        let mut r: Vec<char> = Vec::new();
        r.push(digit_char(n));
        assert(r@ =~= seq![digit_spec(n as nat)]);
        r
    } else {
        let mut r = decimal_string(n / 10);
        r.push(digit_char(n % 10));
        r
    }
}

/// Whether `pat` occurs in `s` at position `i`.
fn occurs_at_exec(s: &Vec<char>, pat: &Vec<char>, i: usize) -> (r: bool)
    ensures
        r == occurs_at(s@, pat@, i as int),
{
    if i > s.len() || pat.len() > s.len() - i {
        return false;
    }
    let mut k: usize = 0;
    while k < pat.len()
        invariant
            i + pat.len() <= s.len(),
            k <= pat.len(),
            forall|j: int| 0 <= j < k ==> s@[i + j] == pat@[j],
        decreases pat.len() - k,
    {
        if s[i + k] != pat[k] {
            assert(s@.subrange(i as int, i + pat.len())[k as int] != pat@[k as int]);
            return false;
        }
        k = k + 1;
    }
    assert(s@.subrange(i as int, i + pat.len()) =~= pat@);
    true
}

/// Whether `pat` occurs in `s`.
fn occurs_in_exec(s: &Vec<char>, pat: &Vec<char>) -> (r: bool)
    requires
        pat.len() > 0,
    ensures
        r == occurs_in(s@, pat@),
{
    if pat.len() > s.len() {
        return false;
    }
    let mut i: usize = 0;
    while i <= s.len() - pat.len()
        invariant
            0 < pat.len() <= s.len(),
            i <= s.len() - pat.len() + 1,
            forall|j: int| 0 <= j < i ==> !occurs_at(s@, pat@, j),
        decreases s.len() - pat.len() + 1 - i,
    {
        if occurs_at_exec(s, pat, i) {
            return true;
        }
        i = i + 1;
    }
    assert forall|j: int| !occurs_at(s@, pat@, j) by {
        if 0 <= j < i {
        }
    }
    false
}

/// `s` with each occurrence of the non-empty `pat` replaced by `with`, left to right.
fn replace_chars(s: &Vec<char>, pat: &Vec<char>, with: &Vec<char>) -> (r: Vec<char>)
    requires
        pat.len() > 0,
    ensures
        r@ == replaced(s@, pat@, with@),
{
    let mut out: Vec<char> = Vec::new();
    let mut i: usize = 0;
    assert(s@.skip(0) =~= s@);
    while i < s.len()
        invariant
            pat.len() > 0,
            i <= s.len(),
            out@ + replaced(s@.skip(i as int), pat@, with@) == replaced(s@, pat@, with@),
        decreases s.len() - i,
    {
        let ghost rest = s@.skip(i as int);
        if occurs_at_exec(s, pat, i) {
            assert(rest.subrange(0, pat@.len() as int) =~= s@.subrange(i as int, i + pat@.len()));
            assert(occurs_at(rest, pat@, 0));
            assert(rest.skip(pat@.len() as int) =~= s@.skip(i + pat@.len()));
            let ghost before = out@;
            let mut k: usize = 0;
            while k < with.len()
                invariant
                    k <= with.len(),
                    out@ == before + with@.take(k as int),
                decreases with.len() - k,
            {
                out.push(with[k]);
                assert(with@.take(k as int + 1) == with@.take(k as int).push(with@[k as int]));
                k = k + 1;
            }
            assert(with@.take(with.len() as int) =~= with@);
            assert(out@ + replaced(s@.skip(i + pat@.len()), pat@, with@) =~= before + (with@
                + replaced(rest.skip(pat@.len() as int), pat@, with@)));
            i = i + pat.len();
        } else {
            proof {
                if rest.len() >= pat@.len() {
                    assert(rest.subrange(0, pat@.len() as int) =~= s@.subrange(
                        i as int,
                        i + pat@.len(),
                    ));
                }
            }
            assert(!occurs_at(rest, pat@, 0));
            assert(rest.drop_first() =~= s@.skip(i + 1));
            assert(rest[0] == s@[i as int]);
            let ghost before = out@;
            out.push(s[i]);
            assert(out@ + replaced(s@.skip(i + 1), pat@, with@) =~= before + (seq![rest[0]]
                + replaced(rest.drop_first(), pat@, with@)));
            i = i + 1;
        }
    }
    assert(s@.skip(i as int) =~= Seq::<char>::empty());
    assert(out@ + Seq::<char>::empty() =~= out@);
    out
}

/// Whether a word of an editor command names the file or the line.
pub open spec fn names_placeholder(w: Seq<char>) -> bool {
    occurs_in(w, "{file}"@) || occurs_in(w, "{line}"@)
}

/// A word with the line and then the file filled in.
pub open spec fn filled(w: Seq<char>, path: Seq<char>, line: nat) -> Seq<char> {
    replaced(replaced(w, "{line}"@, decimal_chars(line)), "{file}"@, path)
}

/// The program and arguments that open `path` at `line` with an editor command split into
/// `ws`: its words filled in when some word names `{file}` or `{line}`, else followed by
/// `+LINE FILE`, or by `FILE:LINE` for Helix.
pub open spec fn command_spec(ws: Seq<Seq<char>>, path: Seq<char>, line: nat) -> (Seq<char>, Seq<Seq<char>>) {
    if exists|i: int| 0 <= i < ws.len() && names_placeholder(#[trigger] ws[i]) {
        let all = ws.map_values(|w: Seq<char>| filled(w, path, line));
        (all[0], all.drop_first())
    } else {
        let program = ws[0];
        let args = ws.drop_first();
        match line_arg_spec(program) {
            LineArg::Plus => (program, args.push(seq!['+'] + decimal_chars(line)).push(path)),
            LineArg::Colon => (program, args.push(path + seq![':'] + decimal_chars(line))),
        }
    }
}

/// The command that opens `path` at `line` with the editor command `template`.
pub fn command_for(template: &str, path: &str, line: usize) -> (r: Result<EditorCommand, EditorError>)
    ensures
        match shell_split(template@) {
            None => r matches Err(EditorError::InvalidEditorCommand { command }) && command@
                == template@,
            Some(ws) => if ws.len() == 0 {
                r matches Err(EditorError::EmptyEditorCommand)
            } else {
                r matches Ok(cmd) && (cmd.program@, words(cmd.args@)) == command_spec(
                    ws,
                    path@,
                    line as nat,
                )
            },
        },
{
    match split_command(template) {
        Ok(pieces) => command_from_words(&pieces, path, line),
        Err(e) => Err(e),
    }
}

/// The command that opens `path` at `line` with the editor command split into `pieces`:
/// an error when there are none.
pub fn command_from_words(pieces: &Vec<String>, path: &str, line: usize) -> (r: Result<
    EditorCommand,
    EditorError,
>)
    ensures
        if pieces@.len() == 0 {
            r matches Err(EditorError::EmptyEditorCommand)
        } else {
            r matches Ok(cmd) && (cmd.program@, words(cmd.args@)) == command_spec(
                words(pieces@),
                path@,
                line as nat,
            )
        },
{
    if pieces.len() == 0 {
        return Err(EditorError::EmptyEditorCommand);
    }
    let ghost ws = words(pieces@);
    proof {
        reveal_strlit("{file}");
        reveal_strlit("{line}");
    }
    let file_pat = chars_of("{file}");
    let line_pat = chars_of("{line}");
    assert(file_pat.len() > 0 && line_pat.len() > 0);
    let mut has_placeholders = false;
    let mut i: usize = 0;
    while i < pieces.len()
        invariant
            i <= pieces.len(),
            ws == words(pieces@),
            file_pat@ == "{file}"@,
            line_pat@ == "{line}"@,
            file_pat.len() > 0,
            line_pat.len() > 0,
            has_placeholders == exists|j: int| 0 <= j < i && names_placeholder(#[trigger] ws[j]),
        decreases pieces.len() - i,
    {
        let piece = chars_of(pieces[i].as_str());
        assert(ws[i as int] == piece@);
        if occurs_in_exec(&piece, &file_pat) || occurs_in_exec(&piece, &line_pat) {
            has_placeholders = true;
        }
        i = i + 1;
    }
    let path_chars = chars_of(path);
    let line_chars = decimal_string(line as u64);
    if has_placeholders {
        let ghost all = ws.map_values(|w: Seq<char>| filled(w, path@, line as nat));
        let mut program = String::new();
        let mut args: Vec<String> = Vec::new();
        let mut k: usize = 0;
        while k < pieces.len()
            invariant
                k <= pieces.len(),
                pieces.len() > 0,
                ws == words(pieces@),
                all == ws.map_values(|w: Seq<char>| filled(w, path@, line as nat)),
                file_pat@ == "{file}"@,
                line_pat@ == "{line}"@,
                file_pat.len() > 0,
                line_pat.len() > 0,
                path_chars@ == path@,
                line_chars@ == decimal_chars(line as nat),
                k > 0 ==> program@ == all[0],
                k > 0 ==> words(args@) == all.subrange(1, k as int),
                k == 0 ==> args@.len() == 0,
            decreases pieces.len() - k,
        {
            let piece = chars_of(pieces[k].as_str());
            let with_line = replace_chars(&piece, &line_pat, &line_chars);
            let with_file = replace_chars(&with_line, &file_pat, &path_chars);
            assert(with_file@ == all[k as int]);
            let word = string_from_chars(&with_file);
            if k == 0 {
                program = word;
                assert(words(args@) =~= all.subrange(1, 1));
            } else {
                let ghost before = args@;
                args.push(word);
                assert(words(args@) =~= all.subrange(1, k as int + 1)) by {
                    assert(words(args@) =~= words(before).push(word@));
                }
            }
            k = k + 1;
        }
        assert(all.drop_first() =~= all.subrange(1, pieces.len() as int));
        return Ok(EditorCommand { program, args });
    }
    let program = pieces[0].clone();
    let style = line_arg_style(program.as_str());
    let mut args: Vec<String> = Vec::new();
    let mut k: usize = 1;
    while k < pieces.len()
        invariant
            1 <= k <= pieces.len(),
            ws == words(pieces@),
            words(args@) == ws.subrange(1, k as int),
        decreases pieces.len() - k,
    {
        let ghost before = args@;
        args.push(pieces[k].clone());
        assert(words(args@) =~= ws.subrange(1, k as int + 1)) by {
            assert(words(args@) =~= words(before).push(ws[k as int]));
        }
        k = k + 1;
    }
    assert(ws.drop_first() =~= ws.subrange(1, pieces.len() as int));
    let ghost base_args = words(args@);
    match style {
        LineArg::Plus => {
            let mut plus: Vec<char> = Vec::new();
            plus.push('+');
            let mut digits = line_chars;
            plus.append(&mut digits);
            assert(plus@ =~= seq!['+'] + decimal_chars(line as nat));
            args.push(string_from_chars(&plus));
            args.push(path.to_owned());
            assert(words(args@) =~= base_args.push(seq!['+'] + decimal_chars(line as nat)).push(
                path@,
            ));
        },
        LineArg::Colon => {
            let mut at = path_chars;
            at.push(':');
            let mut digits = line_chars;
            at.append(&mut digits);
            assert(at@ =~= path@ + seq![':'] + decimal_chars(line as nat));
            args.push(string_from_chars(&at));
            assert(words(args@) =~= base_args.push(path@ + seq![':'] + decimal_chars(line as nat)));
        },
    }
    Ok(EditorCommand { program, args })
}

} // verus!
