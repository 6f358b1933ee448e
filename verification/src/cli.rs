//! The decisions of the command line: reading its arguments, choosing the files of a
//! directory, and refusing oversized input.

use vstd::prelude::*;
use crate::json::same_text;
use crate::order::{Ranked, byte_codes, bytes_le_exec, ranked_sorted, sort_positions};
use crate::report::InputError;
use crate::text::{chars_of, concat};

verus! {

// ---------------------------------------------------------------------------
// Arguments
// ---------------------------------------------------------------------------

/// The report format.
#[derive(Clone, Copy, Debug, PartialEq, Eq, Structural)]
pub enum Format {
    Text,
    Json,
}

/// What the command line asks for.
#[derive(Clone, Copy, Debug, PartialEq, Eq, Structural)]
pub enum Command {
    Help,
    Version,
    /// Validate the file or directory named by the argument at position `path`.
    Validate { path: usize, format: Format },
}

/// The arguments as texts; `None` stands for an argument that is not valid Unicode.
pub open spec fn arg_texts(args: Seq<Option<String>>) -> Seq<Option<Seq<char>>> {
    args.map_values(|a: Option<String>| match a {
        Some(s) => Some(s@),
        None => None,
    })
}

/// An option: a text that starts with `-`.
pub open spec fn is_option(a: Seq<char>) -> bool {
    a.len() > 0 && a[0] == '-'
}

/// Reads `args[i..]`, having seen a path (`path`), a format (`format`, and whether it was
/// given: `format_seen`), and whether options are still recognised (`options`, false after
/// `--`).
pub open spec fn read_args(
    args: Seq<Option<Seq<char>>>,
    i: nat,
    path: Option<usize>,
    format: Format,
    format_seen: bool,
    options: bool,
) -> Result<Command, Seq<char>>
    decreases args.len() - i,
{
    if i >= args.len() {
        match path {
            Some(p) => Ok(Command::Validate { path: p, format }),
            None => Err("provide a JSON file or directory; use --help for usage"@),
        }
    } else {
        let arg = if options {
            args[i as int]
        } else {
            None
        };
        if arg == Some("--help"@) || arg == Some("-h"@) {
            Ok(Command::Help)
        } else if arg == Some("--version"@) || arg == Some("-V"@) {
            Ok(Command::Version)
        } else if arg == Some("--"@) {
            read_args(args, i + 1, path, format, format_seen, false)
        } else if arg == Some("--format"@) {
            if format_seen {
                Err("--format may only be specified once"@)
            } else {
                let value = if i + 1 < args.len() {
                    args[i + 1 as int]
                } else {
                    None
                };
                if value == Some("text"@) {
                    read_args(args, i + 2, path, Format::Text, true, options)
                } else if value == Some("json"@) {
                    read_args(args, i + 2, path, Format::Json, true, options)
                } else {
                    Err("--format requires 'text' or 'json'"@)
                }
            }
        } else if arg is Some && is_option(arg->0) {
            Err("unknown option: "@ + arg->0)
        } else if path is Some {
            Err("provide exactly one file or directory"@)
        } else {
            read_args(args, i + 1, Some(i as usize), format, format_seen, options)
        }
    }
}

/// What the command line (without the program name) asks for, or why it is refused.
pub open spec fn command_of(args: Seq<Option<Seq<char>>>) -> Result<Command, Seq<char>> {
    read_args(args, 0, None, Format::Text, false, true)
}

/// Whether argument `i` is exactly `word`.
fn arg_is(args: &Vec<Option<String>>, i: usize, word: &str) -> (r: bool)
    requires
        i < args@.len(),
    ensures
        r == (arg_texts(args@)[i as int] == Some(word@)),
{
    match &args[i] {
        Some(a) => same_text(a.as_str(), word),
        None => false,
    }
}

/// Reads the command line (without the program name): `--help`/`-h` and
/// `--version`/`-V` win wherever they stand before an error; `--format text|json` may
/// precede or follow the one path; `--` makes every later argument a path. Text is the
/// default format.
pub fn parse_arguments(args: &Vec<Option<String>>) -> (r: Result<Command, String>)
    ensures
        match r {
            Ok(c) => command_of(arg_texts(args@)) == Ok::<Command, Seq<char>>(c),
            Err(m) => command_of(arg_texts(args@)) == Err::<Command, Seq<char>>(m@),
        },
{
    let ghost a = arg_texts(args@);
    let mut path: Option<usize> = None;
    let mut format = Format::Text;
    let mut format_seen = false;
    let mut options = true;
    let mut i: usize = 0;
    while i < args.len()
        invariant
            i <= args@.len(),
            a == arg_texts(args@),
            path matches Some(p) ==> p < i,
            command_of(a) == read_args(a, i as nat, path, format, format_seen, options),
        decreases args.len() - i,
    {
        let ghost arg = if options {
            a[i as int]
        } else {
            None
        };
        if options && (arg_is(args, i, "--help") || arg_is(args, i, "-h")) {
            return Ok(Command::Help);
        }
        assert(!(arg == Some("--help"@) || arg == Some("-h"@)));
        if options && (arg_is(args, i, "--version") || arg_is(args, i, "-V")) {
            return Ok(Command::Version);
        }
        if options && arg_is(args, i, "--") {
            options = false;
            i += 1;
            continue;
        }
        if options && arg_is(args, i, "--format") {
            if format_seen {
                return Err(String::from_str("--format may only be specified once"));
            }
            if i + 1 < args.len() && arg_is(args, i + 1, "text") {
                format = Format::Text;
            } else if i + 1 < args.len() && arg_is(args, i + 1, "json") {
                format = Format::Json;
            } else {
                return Err(String::from_str("--format requires 'text' or 'json'"));
            }
            format_seen = true;
            i += 2;
            continue;
        }
        if options {
            if let Some(text) = &args[i] {
                let chars = chars_of(text.as_str());
                if chars.len() > 0 && chars[0] == '-' {
                    return Err(concat("unknown option: ", text.as_str()));
                }
            }
        }
        assert(!(arg is Some && is_option(arg->0)));
        if path.is_some() {
            return Err(String::from_str("provide exactly one file or directory"));
        }
        path = Some(i);
        i += 1;
    }
    match path {
        Some(p) => Ok(Command::Validate { path: p, format }),
        None => Err(String::from_str("provide a JSON file or directory; use --help for usage")),
    }
}

// ---------------------------------------------------------------------------
// Files of a directory
// ---------------------------------------------------------------------------

/// An entry of a directory: its file name, as bytes, and whether it is a regular file
/// (a symbolic link is not).
pub struct DirEntryInfo {
    pub name: Vec<u8>,
    pub is_file: bool,
}

/// The position of the last `.` in `name`.
pub open spec fn last_dot(name: Seq<u8>) -> Option<int>
    decreases name.len(),
{
    if name.len() == 0 {
        None
    } else if name.last() == 46 {
        Some(name.len() - 1)
    } else {
        last_dot(name.drop_last())
    }
}

/// The extension of a file name, as `Path::extension` reads it: what follows the last `.`,
/// unless there is no `.` or the only one starts the name. (For the name `..`, which no
/// directory listing yields, this gives an empty extension where `Path` gives none; neither
/// is `json`.)
pub open spec fn extension_of(name: Seq<u8>) -> Option<Seq<u8>> {
    match last_dot(name) {
        Some(k) => if k == 0 {
            None
        } else {
            Some(name.subrange(k + 1, name.len() as int))
        },
        None => None,
    }
}

/// An ASCII byte in lower case.
pub open spec fn ascii_lower(b: u8) -> int {
    if 65 <= b <= 90 {
        b + 32
    } else {
        b as int
    }
}

/// `json`, in any mix of ASCII case.
pub open spec fn is_json_extension(e: Seq<u8>) -> bool {
    &&& e.len() == 4
    &&& ascii_lower(e[0]) == 106
    &&& ascii_lower(e[1]) == 115
    &&& ascii_lower(e[2]) == 111
    &&& ascii_lower(e[3]) == 110
}

/// A regular file whose extension is `json` in any case.
pub open spec fn is_json_entry(entry: DirEntryInfo) -> bool {
    entry.is_file && match extension_of(entry.name@) {
        Some(e) => is_json_extension(e),
        None => false,
    }
}

impl Ranked for DirEntryInfo {
    /// Entries are ordered by the bytes of their names.
    open spec fn rank(&self) -> Seq<int> {
        byte_codes(self.name@)
    }

    fn rank_le(&self, other: &Self) -> (r: bool) {
        bytes_le_exec(&self.name, &other.name)
    }
}

fn last_dot_exec(name: &Vec<u8>) -> (r: Option<usize>)
    ensures
        match r {
            Some(k) => last_dot(name@) == Some(k as int) && k < name@.len(),
            None => last_dot(name@) is None,
        },
{
    let mut j: usize = name.len();
    assert(name@.take(j as int) =~= name@);
    while j > 0
        invariant
            j <= name@.len(),
            last_dot(name@) == last_dot(name@.take(j as int)),
        decreases j,
    {
        assert(name@.take(j as int).last() == name@[j - 1]);
        if name[j - 1] == 46 {
            return Some(j - 1);
        }
        assert(name@.take(j as int).drop_last() =~= name@.take(j - 1));
        j -= 1;
    }
    None
}

fn lower(b: u8) -> (r: u8)
    ensures
        r == ascii_lower(b),
{
    if 65 <= b && b <= 90 {
        b + 32
    } else {
        b
    }
}

/// Whether an entry is a regular file with the extension `json` in any case.
pub fn is_json_file(entry: &DirEntryInfo) -> (r: bool)
    ensures
        r == is_json_entry(*entry),
{
    if !entry.is_file {
        return false;
    }
    let name = &entry.name;
    match last_dot_exec(name) {
        None => false,
        Some(k) => {
            if k == 0 {
                return false;
            }
            let ghost e = name@.subrange(k + 1, name@.len() as int);
            if name.len() - (k + 1) != 4 {
                return false;
            }
            assert(e[0] == name@[k + 1]);
            assert(e[3] == name@[k + 4]);
            lower(name[k + 1]) == 106 && lower(name[k + 2]) == 115 && lower(name[k + 3]) == 111
                && lower(name[k + 4]) == 110
        },
    }
}

/// The regular `.json` files of a directory (extension in any case), ordered by name in
/// byte order (entries with equal names, which a directory cannot hold, by position);
/// refused when there is none. The result gives positions in `entries`.
pub fn select_json_files(entries: &Vec<DirEntryInfo>) -> (r: Result<Vec<usize>, String>)
    ensures
        match r {
            Ok(v) => {
                &&& v@.len() > 0
                &&& forall|p: int| 0 <= p < v@.len() ==> #[trigger] v@[p] < entries@.len()
                    && is_json_entry(entries@[v@[p] as int])
                &&& forall|k: int| 0 <= k < entries@.len() && is_json_entry(#[trigger] entries@[k])
                    ==> v@.contains(k as usize)
                &&& ranked_sorted(entries@, v@)
            },
            Err(m) => {
                &&& m@ == "directory contains no regular .json files"@
                &&& forall|k: int| 0 <= k < entries@.len() ==> !is_json_entry(#[trigger] entries@[k])
            },
        },
{
    let mut chosen: Vec<usize> = Vec::new();
    let mut k: usize = 0;
    while k < entries.len()
        invariant
            k <= entries@.len(),
            forall|p: int| 0 <= p < chosen@.len() ==> #[trigger] chosen@[p] < k
                && is_json_entry(entries@[chosen@[p] as int]),
            forall|p: int, q: int| 0 <= p < q < chosen@.len() ==> #[trigger] chosen@[p] < #[trigger] chosen@[q],
            forall|x: int| 0 <= x < k && is_json_entry(#[trigger] entries@[x]) ==> chosen@.contains(x as usize),
        decreases entries.len() - k,
    {
        if is_json_file(&entries[k]) {
            let ghost before = chosen@;
            chosen.push(k);
            assert forall|x: int| 0 <= x < k + 1 && is_json_entry(#[trigger] entries@[x]) implies chosen@.contains(x as usize) by {
                if x < k {
                    assert(before.contains(x as usize));
                    let p = choose|p: int| 0 <= p < before.len() && before[p] == x as usize;
                    assert(chosen@[p] == x as usize);
                } else {
                    assert(chosen@[before.len() as int] == k);
                }
            }
        }
        k += 1;
    }
    if chosen.len() == 0 {
        assert forall|x: int| 0 <= x < entries@.len() implies !is_json_entry(#[trigger] entries@[x]) by {
            if is_json_entry(entries@[x]) {
                assert(chosen@.contains(x as usize));
            }
        }
        return Err(String::from_str("directory contains no regular .json files"));
    }
    assert(chosen@.no_duplicates()) by {
        assert forall|a: int, b: int| 0 <= a < chosen@.len() && 0 <= b < chosen@.len() && a != b
            implies chosen@[a] != chosen@[b] by {
            if a < b {
                assert(chosen@[a] < chosen@[b]);
            } else {
                assert(chosen@[b] < chosen@[a]);
            }
        }
    }
    let ghost cv = chosen@;
    let sorted = sort_positions(entries, chosen);
    assert forall|p: int| 0 <= p < sorted@.len() implies #[trigger] sorted@[p] < entries@.len()
        && is_json_entry(entries@[sorted@[p] as int]) by {
        assert(sorted@.contains(sorted@[p]));
        let q = choose|q: int| 0 <= q < cv.len() && cv[q] == sorted@[p];
    }
    assert(sorted@.len() > 0) by {
        assert(cv.contains(cv[0]));
        assert(sorted@.contains(cv[0]));
    }
    Ok(sorted)
}

/// The largest input file that is read, in bytes: 10 MiB.
pub const MAX_FILE_BYTES: u64 = 10 * 1024 * 1024;

/// Refuses input longer than `MAX_FILE_BYTES`.
pub fn check_file_size(len: u64) -> (r: Result<(), InputError>)
    ensures
        r is Ok <==> len <= MAX_FILE_BYTES,
        r matches Err(e) ==> e.kind@ == "input"@ && e.message@ == "file exceeds the 10 MiB size limit"@
            && e.line is None && e.column is None,
{
    if len > MAX_FILE_BYTES {
        Err(InputError::input("file exceeds the 10 MiB size limit"))
    } else {
        Ok(())
    }
}

/// On a command line without options, one argument is the path to validate, as text; none, or
/// more than one, is refused with the message that says so.
pub proof fn plain_arguments_name_one_path(args: Seq<Option<Seq<char>>>)
    requires
        forall|i: int| 0 <= i < args.len() ==> !(#[trigger] args[i] matches Some(a) && is_option(a)),
    ensures
        args.len() == 0 ==> command_of(args) == Err::<Command, Seq<char>>(
            "provide a JSON file or directory; use --help for usage"@,
        ),
        args.len() == 1 ==> command_of(args) == Ok::<Command, Seq<char>>(
            Command::Validate { path: 0, format: Format::Text },
        ),
        args.len() >= 2 ==> command_of(args) == Err::<Command, Seq<char>>("provide exactly one file or directory"@),
{
    reveal_strlit("--help");
    reveal_strlit("-h");
    reveal_strlit("--version");
    reveal_strlit("-V");
    reveal_strlit("--");
    reveal_strlit("--format");
    if args.len() > 0 {
        assert(!(args[0] matches Some(a) && is_option(a)));
        assert(args[0] != Some("--help"@) && args[0] != Some("-h"@));
        assert(args[0] != Some("--version"@) && args[0] != Some("-V"@));
        assert(args[0] != Some("--"@) && args[0] != Some("--format"@));
        assert(command_of(args) == read_args(args, 1, Some(0usize), Format::Text, false, true));
        if args.len() > 1 {
            assert(!(args[1] matches Some(a) && is_option(a)));
            assert(args[1] != Some("--help"@) && args[1] != Some("-h"@));
            assert(args[1] != Some("--version"@) && args[1] != Some("-V"@));
            assert(args[1] != Some("--"@) && args[1] != Some("--format"@));
        }
    }
}

proof fn lemma_last_dot(name: Seq<u8>)
    ensures
        last_dot(name) matches Some(k) ==> 0 <= k < name.len() && name[k] == 46 && forall|m: int|
            k < m < name.len() ==> #[trigger] name[m] != 46,
        last_dot(name) is None ==> forall|m: int| 0 <= m < name.len() ==> #[trigger] name[m] != 46,
    decreases name.len(),
{
    if name.len() > 0 && name.last() != 46 {
        let d = name.drop_last();
        lemma_last_dot(d);
        assert(last_dot(name) == last_dot(d));
        if let Some(k) = last_dot(name) {
            assert forall|m: int| k < m < name.len() implies #[trigger] name[m] != 46 by {
                if m < name.len() - 1 {
                    assert(name[m] == d[m]);
                }
            }
        } else {
            assert forall|m: int| 0 <= m < name.len() implies #[trigger] name[m] != 46 by {
                if m < name.len() - 1 {
                    assert(name[m] == d[m]);
                }
            }
        }
    }
}

/// A directory entry is chosen exactly when it is a regular file whose name ends in `.json`,
/// in any mix of ASCII case, with something before that dot.
pub proof fn json_files_are_named_with_a_json_extension(entry: DirEntryInfo)
    ensures
        is_json_entry(entry) <==> {
            let n = entry.name@;
            &&& entry.is_file
            &&& n.len() >= 6
            &&& n[n.len() - 5] == 46
            &&& ascii_lower(n[n.len() - 4]) == 106
            &&& ascii_lower(n[n.len() - 3]) == 115
            &&& ascii_lower(n[n.len() - 2]) == 111
            &&& ascii_lower(n[n.len() - 1]) == 110
        },
{
    let n = entry.name@;
    lemma_last_dot(n);
    if n.len() >= 6 && n[n.len() - 5] == 46 && ascii_lower(n[n.len() - 4]) == 106 && ascii_lower(n[n.len() - 3])
        == 115 && ascii_lower(n[n.len() - 2]) == 111 && ascii_lower(n[n.len() - 1]) == 110 {
        assert(n[n.len() - 4] != 46 && n[n.len() - 3] != 46 && n[n.len() - 2] != 46 && n[n.len() - 1] != 46);
        assert(last_dot(n) == Some(n.len() - 5));
    }
    if let Some(k) = last_dot(n) {
        if k != 0 {
            let e = n.subrange(k + 1, n.len() as int);
            if is_json_extension(e) {
                assert(e[0] == n[n.len() - 4]);
                assert(e[1] == n[n.len() - 3]);
                assert(e[2] == n[n.len() - 2]);
                assert(e[3] == n[n.len() - 1]);
            }
        }
    }
}

} // verus!
