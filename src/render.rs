//! Rendering a list of files into one delimited text, with its length in
//! characters.
use crate::paths::{display_of, display_path, views};
use vstd::prelude::*;

verus! {

/// The delimiter line and the start of the header line.
pub open spec fn header_prefix() -> Seq<char> {
    seq!['-', '-', '-', '-', '-', '-', '-', '\n', '#', ' ']
}

/// The end of the header line and the blank line after it.
pub open spec fn header_suffix() -> Seq<char> {
    seq!['\n', '\n']
}

pub open spec fn ends_with_newline(s: Seq<char>) -> bool {
    s.len() > 0 && s.last() == '\n'
}

/// The contents followed by a newline only where they lack a final one.
pub open spec fn terminated(contents: Seq<char>) -> Seq<char> {
    if ends_with_newline(contents) {
        contents
    } else {
        contents.push('\n')
    }
}

/// The section of one file: delimiter, header, blank line, the contents
/// ending in a newline, and one blank separator line.
pub open spec fn section_text(display: Seq<char>, contents: Seq<char>) -> Seq<char> {
    header_prefix() + display + header_suffix() + terminated(contents) + seq!['\n']
}

/// The sections of the first `n` files, in order.
pub open spec fn rendered(
    files: Seq<Seq<char>>,
    contents: Seq<Seq<char>>,
    root: Seq<char>,
    n: int,
) -> Seq<char>
    decreases n,
{
    if n <= 0 {
        Seq::empty()
    } else {
        rendered(files, contents, root, n - 1) + section_text(
            display_of(files[n - 1], root),
            contents[n - 1],
        )
    }
}

/// The text of all files, in order.
pub open spec fn rendered_all(files: Seq<Seq<char>>, contents: Seq<Seq<char>>, root: Seq<char>) -> Seq<char> {
    rendered(files, contents, root, files.len() as int)
}

/// Rendering more files never gives a shorter text.
pub proof fn lemma_rendered_grows(
    files: Seq<Seq<char>>,
    contents: Seq<Seq<char>>,
    root: Seq<char>,
    n: int,
    m: int,
)
    requires
        0 <= n <= m,
    ensures
        rendered(files, contents, root, n).len() <= rendered(files, contents, root, m).len(),
    decreases m - n,
{
    if n < m {
        lemma_rendered_grows(files, contents, root, n, m - 1);
    }
}

/// A single file renders as its header, its contents, a newline only where
/// the contents lack one, and the blank separator line: contents that end in
/// a newline come out unchanged.
pub proof fn lemma_single_file_section(file: Seq<char>, contents: Seq<char>, root: Seq<char>)
    ensures
        rendered_all(seq![file], seq![contents], root) == header_prefix() + display_of(file, root)
            + header_suffix() + terminated(contents) + seq!['\n'],
        ends_with_newline(contents) ==> terminated(contents) == contents,
        !ends_with_newline(contents) ==> terminated(contents) == contents + seq!['\n'],
{
    let fs = seq![file];
    let cs = seq![contents];
    assert(rendered(fs, cs, root, 0) == Seq::<char>::empty());
    assert(rendered(fs, cs, root, 1) =~= section_text(display_of(file, root), contents));
    assert(contents.push('\n') =~= contents + seq!['\n']);
}

/// Appends the section of one file to `output` and returns its length in
/// characters.
pub fn append_file_section(output: &mut String, display: &str, contents: &str) -> (count: usize)
    requires
        section_text(display@, contents@).len() <= usize::MAX,
    ensures
        final(output)@ == old(output)@ + section_text(display@, contents@),
        count == section_text(display@, contents@).len(),
{
    let prefix = "-------\n# ";
    let suffix = "\n\n";
    let newline = "\n";
    proof {
        reveal_strlit("-------\n# ");
        reveal_strlit("\n\n");
        reveal_strlit("\n");
        assert(prefix@ =~= header_prefix());
        assert(suffix@ =~= header_suffix());
        assert(newline@ =~= seq!['\n']);
    }
    let ghost start = output@;
    output.append(prefix);
    output.append(display);
    output.append(suffix);
    output.append(contents);
    let n = contents.unicode_len();
    assert(section_text(display@, contents@).len() >= 13 + display@.len() + n);
    let mut count: usize = 10 + display.unicode_len() + 2 + n;
    if n == 0 || contents.get_char(n - 1) != '\n' {
        output.append(newline);
        count += 1;
        assert(contents@.push('\n') =~= contents@ + seq!['\n']);
    } else {
        assert(contents@.last() == contents@[n - 1]);
    }
    output.append(newline);
    count += 1;
    assert(output@ =~= start + section_text(display@, contents@));
    count
}

/// Renders the files in order, each from its contents, and returns the text
/// with its length in characters (Unicode scalar values).
pub fn render_files(files: &Vec<String>, contents: &Vec<String>, root: &str) -> (r: (String, usize))
    requires
        files.len() == contents.len(),
        rendered_all(views(files@), views(contents@), root@).len() <= usize::MAX,
    ensures
        r.0@ == rendered_all(views(files@), views(contents@), root@),
        r.1 == r.0@.len(),
{
    let ghost fs = views(files@);
    let ghost cs = views(contents@);
    let mut output = String::new();
    let mut char_count: usize = 0;
    let mut i: usize = 0;
    while i < files.len()
        invariant
            fs == views(files@),
            cs == views(contents@),
            files.len() == contents.len(),
            i <= files.len(),
            rendered(fs, cs, root@, files.len() as int).len() <= usize::MAX,
            output@ == rendered(fs, cs, root@, i as int),
            char_count == output@.len(),
        decreases files.len() - i,
    {
        let display = display_path(files[i].as_str(), root);
        let body = contents[i].as_str();
        proof {
            lemma_rendered_grows(fs, cs, root@, i as int + 1, files.len() as int);
            assert(fs[i as int] == files@[i as int]@);
            assert(cs[i as int] == body@);
            assert(rendered(fs, cs, root@, i as int + 1) == output@ + section_text(display@, body@));
        }
        let added = append_file_section(&mut output, display.as_str(), body);
        char_count = char_count + added;
        i += 1;
    }
    (output, char_count)
}

} // verus!
