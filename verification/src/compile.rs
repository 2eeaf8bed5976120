//! The assembler's two passes over a source file: the first sorts lines into
//! sections and records where each label points, the second turns every
//! instruction line into machine words.
use vstd::prelude::*;

use crate::processor::instructions::{spec_decode_opcode, spec_named, spells, Instruction};
use crate::processor::quad_at;
use crate::text::{
    bytes_eq, contains_byte, find, find_bytes, lemma_first_piece_is_prefix, lemma_split_first_piece,
    lemma_split_on_nonempty, lemma_split_without_sep, lemma_strip_before_semicolon, whitespace_len,
    remove_whitespace, slice_of, split_bytes, split_on, strip_whitespace, views,
};
use crate::translation::{
    build_compile_table, build_decode_table, bytes_keyword, compile_pairs, encode_data, encode_line,
    find_hex_literals, find_quoted_strings, fixed_layout, hex_literals, instruction_in,
    is_decode_table, lemma_encoded_word_decodes, pack_words, be_word, byte_or_zero,
    outcome, quoted_strings, spec_encode, spec_encode_data, AsmError, AsmFault, LabelTable,
};

verus! {

/// A section of the source: its name and its instruction lines.
#[derive(Debug)]
struct Section {
    _name: Vec<u8>,
    lines: Vec<Vec<u8>>,
}

impl Section {
    /// The section's name and lines.
    closed spec fn view(&self) -> (Seq<u8>, Seq<Seq<u8>>) {
        (self._name@, self.lines@.map_values(|l: Vec<u8>| l@))
    }

    /// An empty section called `_name`.
    fn new(_name: Vec<u8>) -> (s: Self)
        ensures
            s@ == (_name@, Seq::<Seq<u8>>::empty()),
    {
        let s = Section { _name, lines: Vec::new() };
        assert(s@.1 =~= Seq::<Seq<u8>>::empty());
        s
    }

    /// Appends a line.
    fn push_line(&mut self, line: Vec<u8>)
        ensures
            final(self)@ == (old(self)@.0, old(self)@.1.push(line@)),
    {
        self.lines.push(line);
        assert(self@.1 =~= old(self)@.1.push(line@));
    }

    /// The name of the section.
    fn name(&self) -> (r: &Vec<u8>)
        ensures
            r@ == self@.0,
    {
        &self._name
    }

    /// The lines of the section.
    fn get_lines(&self) -> (r: &Vec<Vec<u8>>)
        ensures
            r@.map_values(|l: Vec<u8>| l@) == self@.1,
    {
        &self.lines
    }
}

/// The word `section`.
pub open spec fn section_keyword() -> Seq<u8> {
    seq![115u8, 101, 99, 116, 105, 111, 110]
}

/// What the first pass has found so far: the sections, each with its name
/// and instruction lines, the labels with their addresses, and the number of
/// bytes the instruction lines take up.
pub struct Scan {
    pub names: Seq<Seq<u8>>,
    pub sections: Seq<Seq<Seq<u8>>>,
    pub labels: Map<Seq<u8>, u32>,
    pub offset: u32,
}

/// The name of the section a declaration line declares: the text after the
/// first `section` of the (white-space free) command, up to the next one.
pub open spec fn section_name(command: Seq<u8>) -> Seq<u8> {
    let rest = command.subrange(find(command, section_keyword())->0 + 7, command.len() as int);
    match find(rest, section_keyword()) {
        Some(j) => rest.subrange(0, j),
        None => rest,
    }
}

/// How many bytes a line assembles to: four for an instruction, four per
/// data word for a `bytes` line (none where its data cannot be assembled).
pub open spec fn line_size(line: Seq<u8>) -> u32 {
    let c0 = split_on(line, 32)[0];
    if spec_named(c0) is None && spells(c0, bytes_keyword()) {
        let rest = line.subrange(5, line.len() as int);
        match spec_encode_data(quoted_strings(rest), hex_literals(rest)) {
            Ok(w) => vstd::wrapping::u32_specs::wrapping_mul(w.len() as u32, 4),
            Err(_) => 0,
        }
    } else {
        4
    }
}

/// The first pass over one line.
/// - A line that is blank, or whose first visible character is `;`, is skipped.
/// - A line holding a `.` is a section declaration when its command (the
///   text before any `;`, white space removed) holds `section`; else a label
///   when it begins with `.`, which is given the current byte offset; else an
///   instruction line.
/// - Any other line is an instruction line. An instruction line goes into the
///   last section and moves the offset on by its size; before the first
///   section there is none to go into.
pub open spec fn scan_line(st: Scan, line: Seq<u8>) -> Result<Scan, AsmFault> {
    if is_skipped(line) {
        Ok(st)
    } else if declares_section(line) {
        Ok(Scan {
            names: st.names.push(section_name(command_of(line))),
            sections: st.sections.push(Seq::empty()),
            ..st
        })
    } else if declares_label(line) {
        Ok(Scan { labels: st.labels.insert(command_of(line), st.offset), ..st })
    } else if st.sections.len() == 0 {
        Err(AsmFault::NoSection)
    } else {
        Ok(Scan {
            sections: st.sections.update(st.sections.len() - 1, st.sections.last().push(line)),
            offset: vstd::wrapping::u32_specs::wrapping_add(st.offset, line_size(line)),
            ..st
        })
    }
}

/// A blank line, or one whose first visible character is `;`.
pub open spec fn is_skipped(line: Seq<u8>) -> bool {
    strip_whitespace(line).len() == 0 || strip_whitespace(line)[0] == 59
}

/// The command of a line: the text before any `;`, white space removed.
pub open spec fn command_of(line: Seq<u8>) -> Seq<u8> {
    strip_whitespace(split_on(line, 59)[0])
}

/// A line with a `.` whose command holds `section`.
pub open spec fn declares_section(line: Seq<u8>) -> bool {
    line.contains(46) && find(command_of(line), section_keyword()) is Some
}

/// A line with a `.` that begins with `.` (and declares no section).
pub open spec fn declares_label(line: Seq<u8>) -> bool {
    line.contains(46) && line[0] == 46
}

/// The first pass over the lines, stopped by the first line that fails.
pub open spec fn scan(lines: Seq<Seq<u8>>) -> Result<Scan, AsmFault>
    decreases lines.len(),
{
    if lines.len() == 0 {
        Ok(Scan { names: seq![], sections: seq![], labels: Map::empty(), offset: 0 })
    } else {
        match scan(lines.drop_last()) {
            Err(e) => Err(e),
            Ok(st) => scan_line(st, lines.last()),
        }
    }
}

/// The lines of the sections, section after section.
pub open spec fn all_lines(sections: Seq<Seq<Seq<u8>>>) -> Seq<Seq<u8>>
    decreases sections.len(),
{
    if sections.len() == 0 {
        seq![]
    } else {
        all_lines(sections.drop_last()) + sections.last()
    }
}

/// The second pass: the words of the lines, one line after another, stopped
/// by the first line that fails.
pub open spec fn emit(lines: Seq<Seq<u8>>, labels: Map<Seq<u8>, u32>) -> Result<Seq<u32>, AsmFault>
    decreases lines.len(),
{
    if lines.len() == 0 {
        Ok(seq![])
    } else {
        match emit(lines.drop_last(), labels) {
            Err(e) => Err(e),
            Ok(w) => match spec_encode(lines.last(), labels) {
                Err(e) => Err(e),
                Ok(v) => Ok(w + v),
            },
        }
    }
}

/// Assembling a source file given as the bytes of its lines.
/// The name of the section instructions are stored in: `.text`.
pub open spec fn text_section() -> Seq<u8> {
    seq![46u8, 116, 101, 120, 116]
}

/// Assembling a source file given as the bytes of its lines: the first pass,
/// then the check that a `.text` section was declared, then the second pass.
pub open spec fn spec_assemble(lines: Seq<Seq<u8>>) -> Result<Seq<u32>, AsmFault> {
    match scan(lines) {
        Err(e) => Err(e),
        Ok(st) => if !st.names.contains(text_section()) {
            Err(AsmFault::NoTextSection)
        } else {
            emit(all_lines(st.sections), st.labels)
        },
    }
}

/// The four bytes of a word, most significant first.
pub open spec fn word_bytes(w: u32) -> Seq<u8> {
    seq![
        ((w >> 24) & 0xff) as u8,
        ((w >> 16) & 0xff) as u8,
        ((w >> 8) & 0xff) as u8,
        (w & 0xff) as u8,
    ]
}

/// The bytes of the words, each word big-endian, one after another.
pub open spec fn image_bytes(words: Seq<u32>) -> Seq<u8>
    decreases words.len(),
{
    if words.len() == 0 {
        seq![]
    } else {
        image_bytes(words.drop_last()) + word_bytes(words.last())
    }
}

/// The bytes of each line.
pub open spec fn line_bytes(lines: Seq<String>) -> Seq<Seq<u8>> {
    lines.map_values(|l: String| vstd::utf8::encode_utf8(l@))
}

/// How many bytes a line assembles to.
pub fn get_bytes_from_line(line: &[u8], dt: &Vec<(&'static str, Instruction)>) -> (r: u32)
    requires
        is_decode_table(dt@),
    ensures
        r == line_size(line@),
{
    let components = split_bytes(line, 32);
    proof {
        lemma_split_on_nonempty(line@, 32);
        lemma_first_piece_is_prefix(line@, 32);
    }
    let c0 = components[0].as_slice();
    assert(c0@ == split_on(line@, 32)[0]);
    if instruction_in(dt, c0).is_none() && c0.len() == 5 && c0[0] == 98 && c0[1] == 121 && c0[2]
        == 116 && c0[3] == 101 && c0[4] == 115 {
        assert(spells(c0@, bytes_keyword()));
        let rest = slice_of(line, 5, line.len());
        let strings = find_quoted_strings(rest.as_slice());
        let literals = find_hex_literals(rest.as_slice());
        match encode_data(&strings, &literals) {
            Ok(w) => (w.len() as u32).wrapping_mul(4),
            Err(_) => 0,
        }
    } else {
        assert(!(spec_named(c0@) is None && spells(c0@, bytes_keyword())));
        4
    }
}

/// The command of a line.
fn command_bytes(line: &[u8]) -> (r: Vec<u8>)
    ensures
        r@ == command_of(line@),
{
    let thing = split_bytes(line, 59);
    proof {
        lemma_split_on_nonempty(line@, 59);
    }
    remove_whitespace(thing[0].as_slice())
}

/// The name of the section a command declares, if it declares one.
#[verifier::rlimit(30)]
fn declared_section(command: &[u8]) -> (r: Option<Vec<u8>>)
    ensures
        r is Some == find(command@, section_keyword()) is Some,
        r matches Some(name) ==> name@ == section_name(command@),
{
    let keyword: [u8; 7] = [115, 101, 99, 116, 105, 111, 110];
    let kw = keyword.as_slice();
    assert(kw@ =~= section_keyword());
    assert(kw@.len() == 7);
    let found = find_bytes(command, kw);
    match found {
        Some(i) => {
            let n = command.len();
            assert(i + 7 <= n);
            let rest = slice_of(command, i + 7, n);
            assert(rest@ == command@.subrange(find(command@, section_keyword())->0 + 7, command@.len() as int));
            match find_bytes(rest.as_slice(), kw) {
                Some(j) => {
                    let name = slice_of(rest.as_slice(), 0, j);
                    Some(name)
                },
                None => Some(rest),
            }
        },
        None => None,
    }
}

/// The assembler's state during the first pass.
struct Assembly {
    sections: Vec<Section>,
    labels: LabelTable,
    prev_bytes: u32,
}

impl Assembly {
    closed spec fn view(&self) -> Scan {
        Scan {
            names: self.sections@.map_values(|s: Section| s@.0),
            sections: self.sections@.map_values(|s: Section| s@.1),
            labels: self.labels@,
            offset: self.prev_bytes,
        }
    }

    /// The first pass over one line.
    fn scan_line(&mut self, line: &[u8], dt: &Vec<(&'static str, Instruction)>) -> (r: Result<
        (),
        AsmError,
    >)
        requires
            old(self).labels.wf(),
            is_decode_table(dt@),
        ensures
            final(self).labels.wf(),
            match r {
                Ok(()) => scan_line(old(self)@, line@) == Ok::<Scan, AsmFault>(final(self)@),
                Err(e) => scan_line(old(self)@, line@) == Err::<Scan, AsmFault>(e@),
            },
    {
        let lineclone = remove_whitespace(line);
        if lineclone.len() == 0 || lineclone[0] == 59 {
            assert(is_skipped(line@));
            return Ok(());
        }
        assert(!is_skipped(line@));
        let has_dot = contains_byte(line, 46);
        if has_dot {
            let command = command_bytes(line);
            match declared_section(command.as_slice()) {
                Some(name) => {
                    assert(declares_section(line@));
                    self.sections.push(Section::new(name));
                    assert(self@.names =~= old(self)@.names.push(section_name(command@)));
                    assert(self@.sections =~= old(self)@.sections.push(Seq::empty()));
                    return Ok(());
                },
                None => {},
            }
            assert(!declares_section(line@));
            if line[0] == 46 {
                assert(declares_label(line@));
                self.labels.insert(command, self.prev_bytes);
                assert(self@.names =~= old(self)@.names);
                assert(self@.sections =~= old(self)@.sections);
                return Ok(());
            }
        }
        assert(!declares_section(line@) && !declares_label(line@));
        let size = get_bytes_from_line(line, dt);
        match self.sections.pop() {
            None => Err(AsmError::NoSection),
            Some(mut section) => {
                self.prev_bytes = self.prev_bytes.wrapping_add(size);
                section.push_line(slice_of(line, 0, line.len()));
                assert(line@.subrange(0, line@.len() as int) =~= line@);
                self.sections.push(section);
                assert(self@.names =~= old(self)@.names);
                assert(self@.sections =~= old(self)@.sections.update(
                    old(self)@.sections.len() - 1,
                    old(self)@.sections.last().push(line@),
                ));
                Ok(())
            },
        }
    }
}

/// Once a line fails in the first pass, the lines after it do not matter.
proof fn lemma_scan_error_sticks(lines: Seq<Seq<u8>>, n: int)
    requires
        0 <= n <= lines.len(),
        scan(lines.take(n)) is Err,
    ensures
        scan(lines) == scan(lines.take(n)),
    decreases lines.len() - n,
{
    if n < lines.len() {
        assert(lines.take(n + 1).drop_last() =~= lines.take(n));
        lemma_scan_error_sticks(lines, n + 1);
    } else {
        assert(lines.take(n) =~= lines);
    }
}

/// Once a line fails in the second pass, the lines after it do not matter.
proof fn lemma_emit_error_sticks(lines: Seq<Seq<u8>>, labels: Map<Seq<u8>, u32>, n: int)
    requires
        0 <= n <= lines.len(),
        emit(lines.take(n), labels) is Err,
    ensures
        emit(lines, labels) == emit(lines.take(n), labels),
    decreases lines.len() - n,
{
    if n < lines.len() {
        assert(lines.take(n + 1).drop_last() =~= lines.take(n));
        lemma_emit_error_sticks(lines, labels, n + 1);
    } else {
        assert(lines.take(n) =~= lines);
    }
}

/// Whether one of the sections is called `.text`.
fn has_text_section(sections: &Vec<Section>) -> (r: bool)
    ensures
        r == sections@.map_values(|s: Section| s@.0).contains(text_section()),
{
    let text: [u8; 5] = [46, 116, 101, 120, 116];
    let t = text.as_slice();
    assert(t@ =~= text_section());
    let ghost names = sections@.map_values(|s: Section| s@.0);
    let mut k: usize = 0;
    while k < sections.len()
        invariant
            0 <= k <= sections@.len(),
            names == sections@.map_values(|s: Section| s@.0),
            t@ == text_section(),
            forall|j: int| 0 <= j < k ==> names[j] != text_section(),
        decreases sections@.len() - k,
    {
        if bytes_eq(sections[k].name().as_slice(), t) {
            assert(names[k as int] == text_section());
            return true;
        }
        k = k + 1;
    }
    false
}

/// The instruction lines of the sections, section after section.
fn flatten_lines(sections: &Vec<Section>) -> (r: Vec<Vec<u8>>)
    ensures
        views(r@) == all_lines(sections@.map_values(|s: Section| s@.1)),
{
    let ghost secs = sections@.map_values(|s: Section| s@.1);
    let mut all: Vec<Vec<u8>> = Vec::new();
    let mut si: usize = 0;
    assert(secs.take(0) =~= Seq::<Seq<Seq<u8>>>::empty());
    assert(views(all@) =~= all_lines(secs.take(0)));
    while si < sections.len()
        invariant
            0 <= si <= sections@.len(),
            secs == sections@.map_values(|s: Section| s@.1),
            views(all@) == all_lines(secs.take(si as int)),
        decreases sections@.len() - si,
    {
        let lines = sections[si].get_lines();
        let ghost before = views(all@);
        let mut li: usize = 0;
        assert(lines@.map_values(|l: Vec<u8>| l@) == secs[si as int]);
        assert(views(all@) =~= before + secs[si as int].take(0));
        while li < lines.len()
            invariant
                0 <= li <= lines@.len(),
                si < sections@.len(),
                secs == sections@.map_values(|s: Section| s@.1),
                lines@.map_values(|l: Vec<u8>| l@) == secs[si as int],
                views(all@) == before + secs[si as int].take(li as int),
            decreases lines@.len() - li,
        {
            let line = slice_of(lines[li].as_slice(), 0, lines[li].len());
            assert(line@ =~= lines@[li as int]@);
            assert(secs[si as int][li as int] == lines@[li as int]@);
            assert(secs[si as int].take(li + 1) =~= secs[si as int].take(li as int).push(line@));
            let ghost old_all = views(all@);
            all.push(line);
            assert(views(all@) =~= old_all.push(line@));
            assert(views(all@) =~= before + secs[si as int].take(li + 1));
            li = li + 1;
        }
        assert(secs[si as int].take(lines@.len() as int) =~= secs[si as int]);
        assert(secs.take(si + 1).drop_last() =~= secs.take(si as int));
        si = si + 1;
    }
    assert(secs.take(sections@.len() as int) =~= secs);
    all
}

/// Assembles a source file given as its lines: the first pass sorts the
/// lines into sections and gives each label the byte offset at which it
/// stands; the second turns the instruction lines into machine words.
pub fn assemble(lines: &Vec<String>) -> (r: Result<Vec<u32>, AsmError>)
    ensures
        outcome(r) == spec_assemble(line_bytes(lines@)),
{
    let ghost src = line_bytes(lines@);
    let compile_table = build_compile_table();
    let decode_table = build_decode_table();
    let mut state = Assembly { sections: Vec::new(), labels: LabelTable::new(), prev_bytes: 0 };
    let mut k: usize = 0;
    assert(src.take(0) =~= Seq::<Seq<u8>>::empty());
    assert(state@.names =~= Seq::<Seq<u8>>::empty());
    assert(state@.sections =~= Seq::<Seq<Seq<u8>>>::empty());
    while k < lines.len()
        invariant
            0 <= k <= lines@.len(),
            src == line_bytes(lines@),
            state.labels.wf(),
            is_decode_table(decode_table@),
            scan(src.take(k as int)) == Ok::<Scan, AsmFault>(state@),
        decreases lines@.len() - k,
    {
        let line = lines[k].as_str().as_bytes();
        assert(line@ == src[k as int]);
        assert(src.take(k + 1).drop_last() =~= src.take(k as int));
        match state.scan_line(line, &decode_table) {
            Ok(()) => {},
            Err(e) => {
                proof {
                    lemma_scan_error_sticks(src, k + 1);
                }
                return Err(e);
            },
        }
        k = k + 1;
    }
    assert(src.take(lines@.len() as int) =~= src);
    if !has_text_section(&state.sections) {
        return Err(AsmError::NoTextSection);
    }
    let all = flatten_lines(&state.sections);
    let ghost program = views(all@);
    let mut output: Vec<u32> = Vec::new();
    let mut li: usize = 0;
    assert(program.take(0) =~= Seq::<Seq<u8>>::empty());
    while li < all.len()
        invariant
            0 <= li <= all@.len(),
            program == views(all@),
            src == line_bytes(lines@),
            scan(src) == Ok::<Scan, AsmFault>(state@),
            program == all_lines(state@.sections),
            state@.names.contains(text_section()),
            state.labels.wf(),
            compile_table@ == compile_pairs(),
            is_decode_table(decode_table@),
            emit(program.take(li as int), state.labels@) == Ok::<Seq<u32>, AsmFault>(output@),
        decreases all@.len() - li,
    {
        assert(program.take(li + 1).drop_last() =~= program.take(li as int));
        assert(all@[li as int]@ == program[li as int]);
        match encode_line(all[li].as_slice(), &compile_table, &decode_table, &state.labels) {
            Ok(mut inst) => {
                output.append(&mut inst);
            },
            Err(e) => {
                proof {
                    lemma_emit_error_sticks(program, state.labels@, li + 1);
                }
                return Err(e);
            },
        }
        li = li + 1;
    }
    assert(program.take(all@.len() as int) =~= program);
    Ok(output)
}

/// The bytes of the binary image of the assembled words: each word
/// big-endian, one after another.
pub fn words_to_bytes(words: &Vec<u32>) -> (r: Vec<u8>)
    ensures
        r@ == image_bytes(words@),
{
    let mut out: Vec<u8> = Vec::new();
    let mut i: usize = 0;
    assert(words@.take(0) =~= Seq::<u32>::empty());
    while i < words.len()
        invariant
            0 <= i <= words@.len(),
            out@ == image_bytes(words@.take(i as int)),
        decreases words@.len() - i,
    {
        let w = words[i];
        out.push(((w >> 24) & 0xff) as u8);
        out.push(((w >> 16) & 0xff) as u8);
        out.push(((w >> 8) & 0xff) as u8);
        out.push((w & 0xff) as u8);
        assert(words@.take(i + 1).drop_last() =~= words@.take(i as int));
        assert(out@ =~= image_bytes(words@.take(i as int)) + word_bytes(w));
        i = i + 1;
    }
    assert(words@.take(words@.len() as int) =~= words@);
    out
}

/// The image holds four bytes for each word, and word `i` stands, most
/// significant byte first, at byte offset `4 * i`.
pub proof fn lemma_image_layout(words: Seq<u32>, i: int)
    requires
        0 <= i < words.len(),
    ensures
        image_bytes(words).len() == 4 * words.len(),
        image_bytes(words).subrange(4 * i, 4 * i + 4) == word_bytes(words[i]),
    decreases words.len(),
{
    lemma_image_len(words);
    let n = words.len() - 1;
    lemma_image_len(words.drop_last());
    if i < n {
        lemma_image_layout(words.drop_last(), i);
        assert(image_bytes(words).subrange(4 * i, 4 * i + 4) =~= image_bytes(
            words.drop_last(),
        ).subrange(4 * i, 4 * i + 4));
    } else {
        assert(image_bytes(words).subrange(4 * i, 4 * i + 4) =~= word_bytes(words.last()));
    }
}

/// The image of `words` has four bytes for each word.
proof fn lemma_image_len(words: Seq<u32>)
    ensures
        image_bytes(words).len() == 4 * words.len(),
    decreases words.len(),
{
    if words.len() > 0 {
        lemma_image_len(words.drop_last());
    }
}

/// The processor of the first design, fetching a word at a word boundary of
/// an assembled image, reads the word the assembler wrote there.
pub proof fn lemma_image_reads_back(words: Seq<u32>, i: int)
    requires
        0 <= i < words.len(),
    ensures
        quad_at(image_bytes(words), 4 * i) == Some(words[i]),
{
    lemma_image_layout(words, i);
    let p = image_bytes(words);
    let w = words[i];
    assert(p[4 * i] == word_bytes(w)[0]);
    assert(p[4 * i + 1] == word_bytes(w)[1]);
    assert(p[4 * i + 2] == word_bytes(w)[2]);
    assert(p[4 * i + 3] == word_bytes(w)[3]);
    assert(((w >> 24) & 0xff) * 0x100_0000 + ((w >> 16) & 0xff) * 0x1_0000 + ((w >> 8) & 0xff)
        * 0x100 + (w & 0xff) == w) by (bit_vector);
    assert((w >> 24) & 0xff < 0x100 && (w >> 16) & 0xff < 0x100 && (w >> 8) & 0xff < 0x100 && w
        & 0xff < 0x100) by (bit_vector);
}

/// An instruction line whose word holds only registers besides its opcode,
/// once assembled into an image, is decoded by the processor of the first
/// design, fetching at the start of its word, as the instruction the line
/// names.
pub proof fn lemma_image_decodes_line(
    words: Seq<u32>,
    i: int,
    line: Seq<u8>,
    labels: Map<Seq<u8>, u32>,
)
    requires
        0 <= i < words.len(),
        spec_named(split_on(line, 32)[0]) matches Some(inst) && fixed_layout(inst),
        spec_encode(line, labels) == Ok::<Seq<u32>, AsmFault>(seq![words[i]]),
    ensures
        spec_decode_opcode(image_bytes(words)[4 * i]) == spec_named(split_on(line, 32)[0]),
{
    lemma_image_layout(words, i);
    lemma_encoded_word_decodes(line, labels, words[i]);
    assert(image_bytes(words)[4 * i] == image_bytes(words).subrange(4 * i, 4 * i + 4)[0]);
}

/// A blank line or a comment line inserted into a source leaves the first
/// pass exactly as it was.
proof fn lemma_scan_skips(a: Seq<Seq<u8>>, l: Seq<u8>, b: Seq<Seq<u8>>)
    requires
        is_skipped(l),
    ensures
        scan(a + seq![l] + b) == scan(a + b),
    decreases b.len(),
{
    if b.len() == 0 {
        assert(a + seq![l] + b =~= a.push(l));
        assert(a.push(l).drop_last() =~= a);
        assert(a + b =~= a);
    } else {
        lemma_scan_skips(a, l, b.drop_last());
        assert((a + seq![l] + b).drop_last() =~= a + seq![l] + b.drop_last());
        assert((a + b).drop_last() =~= a + b.drop_last());
    }
}

/// Blank lines and comment lines assemble to nothing and move no label:
/// inserting one anywhere into a source gives the same result, words or
/// error, as the source without it.
pub proof fn lemma_skipped_line_changes_nothing(lines: Seq<String>, k: int, l: String)
    requires
        0 <= k <= lines.len(),
        is_skipped(vstd::utf8::encode_utf8(l@)),
    ensures
        spec_assemble(line_bytes(lines.insert(k, l))) == spec_assemble(line_bytes(lines)),
{
    let src = line_bytes(lines);
    let lb = vstd::utf8::encode_utf8(l@);
    assert(line_bytes(lines.insert(k, l)) =~= src.take(k) + seq![lb] + src.skip(k));
    assert(src =~= src.take(k) + src.skip(k));
    lemma_scan_skips(src.take(k), lb, src.skip(k));
}

/// The lines of a source that are neither blank nor comments.
pub open spec fn kept_lines(lines: Seq<Seq<u8>>) -> Seq<Seq<u8>>
    decreases lines.len(),
{
    if lines.len() == 0 {
        lines
    } else if is_skipped(lines.last()) {
        kept_lines(lines.drop_last())
    } else {
        kept_lines(lines.drop_last()).push(lines.last())
    }
}

/// The first pass over a source is the first pass over its kept lines.
proof fn lemma_scan_kept(lines: Seq<Seq<u8>>)
    ensures
        scan(lines) == scan(kept_lines(lines)),
    decreases lines.len(),
{
    if lines.len() == 0 {
        assert(kept_lines(lines) =~= lines);
    } else {
        lemma_scan_kept(lines.drop_last());
        let k = kept_lines(lines.drop_last());
        if !is_skipped(lines.last()) {
            assert(kept_lines(lines) == k.push(lines.last()));
            assert(k.push(lines.last()).drop_last() =~= k);
        } else {
            assert(kept_lines(lines) == k);
        }
    }
}

/// Blank lines and comment lines, any number of them and anywhere, change
/// nothing: two sources whose other lines are the same, in the same order,
/// assemble to the same result, words or error.
pub proof fn lemma_only_kept_lines_matter(a: Seq<Seq<u8>>, b: Seq<Seq<u8>>)
    requires
        kept_lines(a) == kept_lines(b),
    ensures
        spec_assemble(a) == spec_assemble(b),
{
    lemma_scan_kept(a);
    lemma_scan_kept(b);
}

/// A comment after a label or section declaration changes nothing. For a
/// line `l` without `;` that declares a section (its text without white space
/// holds `section`) or a label (it starts with `.`), the line `l`, a `;` and
/// any comment `c` is scanned exactly as `l` is; and a label so declared is
/// named by the text of `l` with its white space taken out, and stands for
/// the byte offset reached.
pub proof fn lemma_comment_after_declaration(st: Scan, l: Seq<u8>, c: Seq<u8>)
    requires
        !l.contains(59),
        l.contains(46),
        find(strip_whitespace(l), section_keyword()) is Some || (l.len() > 0 && l[0] == 46),
    ensures
        scan_line(st, l + seq![59u8] + c) == scan_line(st, l),
        l[0] == 46 && find(strip_whitespace(l), section_keyword()) is None ==> scan_line(
            st,
            l + seq![59u8] + c,
        ) == Ok::<Scan, AsmFault>(
            Scan { labels: st.labels.insert(strip_whitespace(l), st.offset), ..st },
        ),
{
    let line = l + seq![59u8] + c;
    let r = seq![59u8] + c;
    assert(line =~= l + r);
    lemma_split_first_piece(l, 59, c);
    lemma_split_without_sep(l, 59);
    lemma_strip_before_semicolon(l, r);
    assert(r.drop_first() =~= c);
    assert(whitespace_len(r) == 0);
    assert(strip_whitespace(r) == seq![59u8] + strip_whitespace(c));
    assert(command_of(line) == strip_whitespace(l));
    assert(command_of(l) == strip_whitespace(l));
    let k = choose|k: int| 0 <= k < l.len() && l[k] == 46;
    assert(line[k] == 46);
    assert(line.contains(46));
    assert(is_skipped(line) == is_skipped(l)) by {
        let sl = strip_whitespace(l);
        assert(strip_whitespace(line) == sl + (seq![59u8] + strip_whitespace(c)));
        if sl.len() > 0 {
            assert(strip_whitespace(line)[0] == sl[0]);
        } else {
            assert(strip_whitespace(line)[0] == 59);
        }
    }
    if l.len() > 0 {
        assert(line[0] == l[0]);
    }
}

/// The image of two runs of words is the image of the first, then of the
/// second.
pub proof fn lemma_image_concat(a: Seq<u32>, b: Seq<u32>)
    ensures
        image_bytes(a + b) == image_bytes(a) + image_bytes(b),
    decreases b.len(),
{
    if b.len() == 0 {
        assert(a + b =~= a);
        assert(image_bytes(a) + image_bytes(b) =~= image_bytes(a));
    } else {
        lemma_image_concat(a, b.drop_last());
        assert((a + b).drop_last() =~= a + b.drop_last());
        assert((a + b).last() == b.last());
        assert(image_bytes(a) + image_bytes(b.drop_last()) + word_bytes(b.last()) =~= image_bytes(a)
            + (image_bytes(b.drop_last()) + word_bytes(b.last())));
    }
}

/// `n` zero bytes.
pub open spec fn zeros(n: nat) -> Seq<u8> {
    Seq::new(n, |k: int| 0u8)
}

/// The text of a `bytes` string survives assembly: the image of the words
/// it is packed into is the text itself, followed by zero bytes up to a
/// whole word.
pub proof fn lemma_packed_text_in_image(b: Seq<u8>)
    ensures
        image_bytes(pack_words(b)) == b + zeros(((4 - b.len() % 4) % 4) as nat),
    decreases b.len(),
{
    let c = if b.len() <= 4 { b } else { b.subrange(0, 4) };
    let w = be_word(b);
    let b0 = byte_or_zero(b, 0) as u8;
    let b1 = byte_or_zero(b, 1) as u8;
    let b2 = byte_or_zero(b, 2) as u8;
    let b3 = byte_or_zero(b, 3) as u8;
    assert(w == (b0 as int * 0x100_0000 + b1 as int * 0x1_0000 + b2 as int * 0x100 + b3 as int) as u32);
    assert(((w >> 24) & 0xff) as u8 == b0 && ((w >> 16) & 0xff) as u8 == b1 && ((w >> 8) & 0xff)
        as u8 == b2 && (w & 0xff) as u8 == b3) by (bit_vector)
        requires
            w == (b0 as int * 0x100_0000 + b1 as int * 0x1_0000 + b2 as int * 0x100 + b3 as int) as u32,
    ;
    lemma_image_len(seq![w]);
    assert(image_bytes(seq![w]) =~= word_bytes(w)) by {
        assert(seq![w].drop_last() =~= Seq::<u32>::empty());
    }
    if b.len() == 0 {
        assert(image_bytes(pack_words(b)) =~= b + zeros(0));
    } else if b.len() <= 4 {
        assert(word_bytes(w) =~= b + zeros(((4 - b.len() % 4) % 4) as nat));
    } else {
        let rest = b.subrange(4, b.len() as int);
        lemma_packed_text_in_image(rest);
        lemma_image_concat(seq![w], pack_words(rest));
        assert(word_bytes(w) =~= b.subrange(0, 4));
        assert((4 - rest.len() % 4) % 4 == (4 - b.len() % 4) % 4);
        assert(b.subrange(0, 4) + (rest + zeros(((4 - b.len() % 4) % 4) as nat)) =~= b + zeros(
            ((4 - b.len() % 4) % 4) as nat,
        ));
    }
}

/// The first pass counts exactly the bytes the second pass writes: for a
/// line that assembles, the size the first pass gives it (and so the amount
/// every later label moves on) is four bytes per word it assembles to,
/// modulo 2^32 (for lines of fewer than 2^32 words).
pub proof fn lemma_line_size_matches_words(line: Seq<u8>, labels: Map<Seq<u8>, u32>)
    requires
        spec_encode(line, labels) is Ok,
        spec_encode(line, labels)->Ok_0.len() <= u32::MAX,
    ensures
        line_size(line) == (4 * spec_encode(line, labels)->Ok_0.len()) % 0x1_0000_0000,
{
    lemma_split_on_nonempty(line, 32);
}

} // verus!
