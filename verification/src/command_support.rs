use vstd::prelude::*;

use crate::path_syntax::{extension_fact, known_extension};
use crate::text::{
    append_chars, chars_eq, chars_to_string, spec_ascii_lower, str_chars, trim, trim_chars,
    ascii_lower,
};

verus! {

/// A program to start and the arguments to give it.
#[derive(Debug, Clone)]
pub struct CommandLine {
    pub program: String,
    pub args: Vec<String>,
}

/// The texts of a sequence of strings.
pub open spec fn texts(v: Seq<String>) -> Seq<Seq<char>> {
    Seq::new(v.len(), |i: int| v[i]@)
}

/// The text of an optional string.
pub open spec fn opt_text(o: Option<String>) -> Option<Seq<char>> {
    match o {
        Some(s) => Some(s@),
        None => None,
    }
}

/// Whether a file extension names a Windows batch file: `cmd` or `bat` in
/// any ASCII case.
pub open spec fn is_batch_extension(ext: Seq<char>) -> bool {
    ext.map_values(|c: char| spec_ascii_lower(c)) == "cmd"@ || ext.map_values(|c: char| spec_ascii_lower(c))
        == "bat"@
}

fn lower_chars(v: &Vec<char>) -> (r: Vec<char>)
    ensures
        r@ == v@.map_values(|c: char| spec_ascii_lower(c)),
{
    let mut r: Vec<char> = Vec::new();
    let mut i: usize = 0;
    while i < v.len()
        invariant
            i <= v.len(),
            r@ == v@.take(i as int).map_values(|c: char| spec_ascii_lower(c)),
        decreases v.len() - i,
    {
        r.push(ascii_lower(v[i]));
        i += 1;
        assert(r@ =~= v@.take(i as int).map_values(|c: char| spec_ascii_lower(c)));
    }
    assert(v@.take(v.len() as int) =~= v@);
    r
}

/// `std::path::Path::extension` of a path, where it has one and it is valid
/// text. Its documentation: none without a file name, none when the file name
/// has no `.` or only a leading one, else what follows the last `.`. Stated
/// for the Unix and the Windows reading of the components (`extension_fact`);
/// not stated for paths that start with two separators.
#[verifier::external_body]
pub(crate) fn path_extension(path: &str) -> (r: Option<String>)
    ensures
        extension_fact(path@, opt_text(r)),
{
    std::path::Path::new(path).extension().and_then(|e| e.to_str()).map(|e| e.to_owned())
}

/// Whether a path's extension, if it has one, is that of a Windows batch file.
pub open spec fn batch_extension_of(ext: Option<Seq<char>>) -> bool {
    match ext {
        Some(e) => is_batch_extension(e),
        None => false,
    }
}

/// Whether an extension is that of a Windows batch file.
pub fn batch_extension(ext: Option<&str>) -> (b: bool)
    ensures
        b == (match ext {
            Some(e) => is_batch_extension(e@),
            None => false,
        }),
{
    match ext {
        Some(e) => {
            let lower = lower_chars(&str_chars(e));
            chars_eq(&lower, &str_chars("cmd")) || chars_eq(&lower, &str_chars("bat"))
        },
        None => false,
    }
}

/// Whether `path` names a Windows batch file, which has to be started
/// through `cmd.exe`.
pub fn is_windows_batch_wrapper(path: &str) -> (b: bool)
    ensures
        exists|ext: Option<Seq<char>>| extension_fact(path@, ext) && b == #[trigger] batch_extension_of(ext),
        known_extension(path@) matches Some(e) ==> b == batch_extension_of(e),
{
    let ext = path_extension(path);
    let b = match &ext {
        Some(e) => batch_extension(Some(e.as_str())),
        None => batch_extension(None),
    };
    assert(b == batch_extension_of(opt_text(ext)));
    b
}

/// How `program` is started: on Windows a batch file runs as `cmd.exe /C
/// program`, anything else runs as itself.
pub open spec fn spec_launcher(program: Seq<char>, batch: bool, windows: bool) -> (Seq<char>, Seq<Seq<char>>) {
    if windows && batch {
        ("cmd.exe"@, seq!["/C"@, program])
    } else {
        (program, Seq::empty())
    }
}

/// Builds the command line that starts `executable`: through `cmd.exe /C`
/// for a batch file on Windows, directly otherwise. The arguments of the
/// operation are appended after these.
pub fn new_command(executable: &str, windows: bool) -> (r: CommandLine)
    ensures
        windows ==> exists|ext: Option<Seq<char>>|
            extension_fact(executable@, ext) && spec_launcher(executable@, #[trigger] batch_extension_of(ext), windows) == (
            r.program@,
            texts(r.args@),
        ),
        windows ==> (known_extension(executable@) matches Some(e) ==> spec_launcher(
            executable@,
            batch_extension_of(e),
            windows,
        ) == (r.program@, texts(r.args@))),
        !windows ==> r.program@ == executable@ && r.args@.len() == 0,
{
    if windows && is_windows_batch_wrapper(executable) {
        let args = vec!["/C".to_owned(), executable.to_owned()];
        let r = CommandLine { program: "cmd.exe".to_owned(), args };
        assert(texts(r.args@) =~= seq!["/C"@, executable@]);
        assert(spec_launcher(executable@, true, windows) == (r.program@, texts(r.args@)));
        proof {
            reveal_strlit("cmd.exe");
        }
        r
    } else {
        let r = CommandLine { program: executable.to_owned(), args: Vec::new() };
        assert(texts(r.args@) =~= Seq::<Seq<char>>::empty());
        assert(spec_launcher(executable@, false, windows) == (r.program@, texts(r.args@)));
        r
    }
}

/// The text of some bytes with invalid UTF-8 replaced, as
/// `String::from_utf8_lossy` gives it.
pub uninterp spec fn lossy_text(bytes: Seq<u8>) -> Seq<char>;

/// `String::from_utf8_lossy`: the text of the bytes, each invalid sequence
/// replaced by U+FFFD. Valid UTF-8 decodes as it is.
#[verifier::external_body]
pub(crate) fn utf8_lossy(bytes: &[u8]) -> (r: String)
    ensures
        r@ == lossy_text(bytes@),
        vstd::utf8::valid_utf8(bytes@) ==> r@ == vstd::utf8::decode_utf8(bytes@),
{
    String::from_utf8_lossy(bytes).into_owned()
}

/// The summary of a failed program's error output: the trimmed text, or a
/// note that `binary` said nothing.
pub open spec fn spec_stderr_summary(binary: Seq<char>, stderr: Seq<u8>) -> Seq<char> {
    if trim(lossy_text(stderr)).len() == 0 {
        binary + " did not provide error details"@
    } else {
        trim(lossy_text(stderr))
    }
}

pub fn stderr_summary(binary: &str, stderr: &[u8]) -> (r: String)
    ensures
        r@ == spec_stderr_summary(binary@, stderr@),
{
    let text = trim_chars(&str_chars(utf8_lossy(stderr).as_str()));
    if text.len() == 0 {
        let mut v = str_chars(binary);
        append_chars(&mut v, &str_chars(" did not provide error details"));
        chars_to_string(&v)
    } else {
        chars_to_string(&text)
    }
}

} // verus!
