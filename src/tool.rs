use crate::fs::{list_dir, name_views, read_file, write_file, MemFS};
use crate::text::{has_prefix, split_once, string_from_utf8, strip_prefix};
use vstd::prelude::*;
use vstd::string::StringExecFns;
use vstd::utf8::{decode_utf8, encode_utf8, valid_utf8};

verus! {

/// A tool command, as read from the text of a tool call.
pub enum ToolCommand {
    /// `fs_write:<name>:<data>`
    Write { name: Seq<char>, data: Seq<char> },
    /// `fs_write:` without a second colon.
    BadWrite,
    /// `fs_read:<name>`
    Read { name: Seq<char> },
    /// Anything that begins with `fs_ls`.
    List,
    Unknown,
}

/// The position of the first `c` in `s`.
pub open spec fn first_index_of(s: Seq<char>, c: char) -> int {
    choose|i: int| 0 <= i < s.len() && s[i] == c && !s.subrange(0, i).contains(c)
}

/// Reads a command; the prefixes are tried in a fixed order.
pub open spec fn parse_command(c: Seq<char>) -> ToolCommand {
    if has_prefix(c, "fs_write:"@) {
        let rest = c.subrange("fs_write:"@.len() as int, c.len() as int);
        if rest.contains(':') {
            let k = first_index_of(rest, ':');
            ToolCommand::Write { name: rest.subrange(0, k), data: rest.subrange(k + 1, rest.len() as int) }
        } else {
            ToolCommand::BadWrite
        }
    } else if has_prefix(c, "fs_read:"@) {
        ToolCommand::Read { name: c.subrange("fs_read:"@.len() as int, c.len() as int) }
    } else if has_prefix(c, "fs_ls"@) {
        ToolCommand::List
    } else {
        ToolCommand::Unknown
    }
}

/// Each name followed by one space.
pub open spec fn names_listing(names: Seq<Seq<char>>) -> Seq<char>
    decreases names.len(),
{
    if names.len() == 0 {
        Seq::empty()
    } else {
        names_listing(names.drop_last()) + names.last() + " "@
    }
}

/// The text a file's bytes read as.
pub open spec fn file_text(b: Seq<u8>) -> Seq<char> {
    if valid_utf8(b) {
        decode_utf8(b)
    } else {
        "<Binary Data>"@
    }
}

/// The reply to command text `c` on a filesystem with files `files`, listed
/// as `names`.
pub open spec fn tool_reply(files: Map<Seq<char>, Seq<u8>>, names: Seq<Seq<char>>, c: Seq<char>) -> Seq<char> {
    match parse_command(c) {
        ToolCommand::Write { .. } => "OK"@,
        ToolCommand::BadWrite => "Error: Invalid fs_write format"@,
        ToolCommand::Read { name } => if files.contains_key(name) {
            file_text(files[name])
        } else {
            "Error: File not found"@
        },
        ToolCommand::List => "Files: "@ + names_listing(names),
        ToolCommand::Unknown => "Error: Unknown Tool"@,
    }
}

/// Runs the tool command in `content` against `fs` and returns the reply.
/// Only a well-formed write changes the filesystem.
pub fn execute(fs: &mut MemFS, content: &str) -> (r: String)
    requires
        old(fs).wf(),
    ensures
        final(fs).wf(),
        r@ == tool_reply(old(fs).files(), old(fs).names(), content@),
        match parse_command(content@) {
            ToolCommand::Write { name, data } => final(fs).files() == old(fs).files().insert(name, encode_utf8(data))
                && final(fs).names() == (if old(fs).names().contains(name) { old(fs).names() } else { old(fs).names().push(name) }),
            _ => *final(fs) == *old(fs),
        },
{
    if let Some(rest) = strip_prefix(content, "fs_write:") {
        match split_once(rest, ':') {
            Some((name, data)) => {
                proof {
                    lemma_first_index(rest@, name@, data@, ':');
                }
                write_file(fs, name, data.as_bytes());
                String::from_str("OK")
            },
            None => String::from_str("Error: Invalid fs_write format"),
        }
    } else if let Some(name) = strip_prefix(content, "fs_read:") {
        proof {
            assert(!has_prefix(content@, "fs_write:"@));
        }
        match read_file(fs, name) {
            Some(data) => match string_from_utf8(data) {
                Some(s) => s,
                None => String::from_str("<Binary Data>"),
            },
            None => String::from_str("Error: File not found"),
        }
    } else if strip_prefix(content, "fs_ls").is_some() {
        let files = list_dir(fs);
        let mut s = String::from_str("Files: ");
        let mut i: usize = 0;
        while i < files.len()
            invariant
                i <= files@.len(),
                s@ == "Files: "@ + names_listing(name_views(files@).subrange(0, i as int)),
            decreases files@.len() - i,
        {
            let ghost before = s@;
            s.append(files[i].as_str());
            s.append(" ");
            proof {
                let ns = name_views(files@);
                assert(ns.subrange(0, i + 1).drop_last() =~= ns.subrange(0, i as int));
                assert(ns.subrange(0, i + 1).last() == files@[i as int]@);
                assert(s@ =~= "Files: "@ + names_listing(ns.subrange(0, i + 1)));
            }
            i += 1;
        }
        proof {
            assert(name_views(files@).subrange(0, i as int) =~= name_views(files@));
        }
        s
    } else {
        String::from_str("Error: Unknown Tool")
    }
}

/// The split at the first `c` is where `first_index_of` points.
proof fn lemma_first_index(s: Seq<char>, a: Seq<char>, b: Seq<char>, c: char)
    requires
        s == a + seq![c] + b,
        !a.contains(c),
    ensures
        s.contains(c),
        first_index_of(s, c) == a.len(),
        s.subrange(0, a.len() as int) == a,
        s.subrange(a.len() as int + 1, s.len() as int) == b,
{
    let k = a.len() as int;
    assert(s[k] == c);
    assert(s.subrange(0, k) =~= a);
    assert(s.subrange(k + 1, s.len() as int) =~= b);
    let j = first_index_of(s, c);
    assert(0 <= j < s.len() && s[j] == c && !s.subrange(0, j).contains(c));
    if j < k {
        assert(a[j] == c);
    } else if j > k {
        assert(s.subrange(0, j)[k] == c);
    }
}

proof fn lemma_parse_write(name: Seq<char>, data: Seq<char>)
    requires
        !name.contains(':'),
    ensures
        parse_command("fs_write:"@ + name + seq![':'] + data) == (ToolCommand::Write { name, data }),
{
    reveal_strlit("fs_write:");
    let w = "fs_write:"@ + name + seq![':'] + data;
    assert(w.subrange(0, 9) =~= "fs_write:"@);
    let rest = w.subrange(9, w.len() as int);
    assert(rest =~= name + seq![':'] + data);
    lemma_first_index(rest, name, data, ':');
}

proof fn lemma_parse_read(name: Seq<char>)
    ensures
        parse_command("fs_read:"@ + name) == (ToolCommand::Read { name }),
{
    reveal_strlit("fs_write:");
    reveal_strlit("fs_read:");
    let r = "fs_read:"@ + name;
    assert(!has_prefix(r, "fs_write:"@)) by {
        if has_prefix(r, "fs_write:"@) {
            assert(r.subrange(0, 9)[3] == "fs_write:"@[3]);
        }
    }
    assert(r.subrange(0, 8) =~= "fs_read:"@);
    assert(r.subrange(8, r.len() as int) =~= name);
}

/// Writing `data` under a name without a colon and then reading that name
/// gives `data` back; the write itself replies "OK".
pub proof fn lemma_write_then_read(files: Map<Seq<char>, Seq<u8>>, names: Seq<Seq<char>>, name: Seq<char>, data: Seq<char>)
    requires
        !name.contains(':'),
    ensures
        parse_command("fs_write:"@ + name + seq![':'] + data) == (ToolCommand::Write { name, data }),
        tool_reply(files, names, "fs_write:"@ + name + seq![':'] + data) == "OK"@,
        tool_reply(files.insert(name, encode_utf8(data)), names, "fs_read:"@ + name) == data,
{
    lemma_parse_write(name, data);
    lemma_parse_read(name);
    vstd::utf8::encode_utf8_valid_utf8(data);
    vstd::utf8::encode_utf8_decode_utf8(data);
}

} // verus!
