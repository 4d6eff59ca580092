//! The two-pass compiler: a first pass that resolves aliases across
//! included files while tracking the global command offset, and a second
//! pass that emits one 15-byte record per instruction.
use vstd::prelude::*;
use vstd::string::StringExecFns;
use vstd::string::StrSliceExecFns;
use crate::data_struct::{IError, Type, TypedByte, spec_i32_bits};
use crate::encoding::{Command, Param, encode_command, spec_encode, spec_command_wf,
    spec_buffer_wf, lemma_encode_buffer_wf};
use crate::infra::Infra;
use crate::text::{trim, str_eq, starts_with, ends_with_char, contains_str, spec_contains_str,
    split_char, remove_char,
    parse_u32, parse_i32, usize_to_string, spec_split, spec_trim, spec_remove_char,
    spec_u32_literal_ok, spec_u32_literal_value, spec_i32_literal_ok, spec_i32_literal_value,
    lemma_split_len};

verus! {

/// The source tree handed to the compiler: each compilation unit's lines,
/// keyed by the path its include directives name.
pub struct Sources {
    pub files: Vec<(String, Vec<String>)>,
}

/// The lines stored for `key`, the latest entry winning.
pub open spec fn spec_sources_get(entries: Seq<(String, Vec<String>)>, key: Seq<char>) -> Option<
    Seq<Seq<char>>,
>
    decreases entries.len(),
{
    if entries.len() == 0 {
        None
    } else if entries.last().0@ == key {
        Some(entries.last().1.deep_view())
    } else {
        spec_sources_get(entries.drop_last(), key)
    }
}

impl Sources {
    /// An empty source tree.
    pub fn new() -> (r: Sources)
        ensures
            r.files@.len() == 0,
    {
        Sources { files: Vec::new() }
    }

    /// Adds one compilation unit; a later entry for the same path wins.
    pub fn insert(&mut self, path: String, lines: Vec<String>)
        ensures
            final(self).files@ == old(self).files@.push((path, lines)),
    {
        self.files.push((path, lines));
    }

    /// The lines stored for `path`.
    pub fn get(&self, path: &str) -> (r: Option<&Vec<String>>)
        ensures
            r is Some <==> spec_sources_get(self.files@, path@) is Some,
            r is Some ==> r->0.deep_view() == spec_sources_get(self.files@, path@)->0,
    {
        let n = self.files.len();
        proof {
            assert(self.files@.subrange(0, n as int) =~= self.files@);
        }
        let mut i: usize = n;
        while i > 0
            invariant
                0 <= i <= n,
                n == self.files@.len(),
                spec_sources_get(self.files@, path@) == spec_sources_get(
                    self.files@.subrange(0, i as int),
                    path@,
                ),
            decreases i,
        {
            proof {
                assert(self.files@.subrange(0, i as int).drop_last() =~= self.files@.subrange(
                    0,
                    i - 1,
                ));
            }
            if str_eq(self.files[i - 1].0.as_str(), path) {
                return Some(&self.files[i - 1].1);
            }
            i -= 1;
        }
        proof {
            assert(self.files@.subrange(0, 0) =~= Seq::<(String, Vec<String>)>::empty());
        }
        None
    }

    /// A copy of the tree.
    pub fn duplicate(&self) -> (r: Sources)
        ensures
            r.files@.len() == self.files@.len(),
            forall|k: Seq<char>| spec_sources_get(#[trigger] r.files@, k) == spec_sources_get(
                self.files@,
                k,
            ),
    {
        let mut files: Vec<(String, Vec<String>)> = Vec::new();
        let n = self.files.len();
        let mut i: usize = 0;
        while i < n
            invariant
                0 <= i <= n,
                n == self.files@.len(),
                files@.len() == i,
                forall|j: int| 0 <= j < i ==> (#[trigger] files@[j]).0@ == self.files@[j].0@
                    && files@[j].1.deep_view() == self.files@[j].1.deep_view(),
            decreases n - i,
        {
            let path = self.files[i].0.clone();
            let lines = clone_lines(&self.files[i].1);
            let ghost prev = files@;
            files.push((path, lines));
            proof {
                assert forall|j: int| 0 <= j < i + 1 implies (#[trigger] files@[j]).0@
                    == self.files@[j].0@ && files@[j].1.deep_view()
                    == self.files@[j].1.deep_view() by {
                    if j < i {
                        assert(files@[j] == prev[j]);
                        assert((prev[j]).0@ == self.files@[j].0@ && prev[j].1.deep_view()
                            == self.files@[j].1.deep_view());
                    } else {
                        assert(files@[j] == (path, lines));
                    }
                }
            }
            i += 1;
        }
        let r = Sources { files };
        proof {
            assert forall|k: Seq<char>| spec_sources_get(#[trigger] r.files@, k)
                == spec_sources_get(self.files@, k) by {
                lemma_sources_get_congruence(r.files@, self.files@, k);
            }
        }
        r
    }
}

proof fn lemma_sources_get_congruence(
    a: Seq<(String, Vec<String>)>,
    b: Seq<(String, Vec<String>)>,
    k: Seq<char>,
)
    requires
        a.len() == b.len(),
        forall|j: int| 0 <= j < a.len() ==> (#[trigger] a[j]).0@ == b[j].0@ && a[j].1.deep_view()
            == b[j].1.deep_view(),
    ensures
        spec_sources_get(a, k) == spec_sources_get(b, k),
    decreases a.len(),
{
    if a.len() > 0 {
        assert(a.last().0@ == b.last().0@);
        assert forall|j: int| 0 <= j < a.drop_last().len() implies (#[trigger] a.drop_last()[j]).0@
            == b.drop_last()[j].0@ && a.drop_last()[j].1.deep_view()
            == b.drop_last()[j].1.deep_view() by {
            assert(a.drop_last()[j] == a[j]);
            assert(b.drop_last()[j] == b[j]);
            assert(a[j].0@ == b[j].0@ && a[j].1.deep_view() == b[j].1.deep_view());
        }
        lemma_sources_get_congruence(a.drop_last(), b.drop_last(), k);
    }
}

/// Copies a unit's lines.
fn clone_lines(lines: &Vec<String>) -> (r: Vec<String>)
    ensures
        r.deep_view() == lines.deep_view(),
{
    let mut out: Vec<String> = Vec::new();
    let n = lines.len();
    let mut i: usize = 0;
    while i < n
        invariant
            0 <= i <= n,
            n == lines@.len(),
            out@.len() == i,
            forall|j: int| 0 <= j < i ==> #[trigger] out@[j]@ == lines@[j]@,
        decreases n - i,
    {
        out.push(lines[i].clone());
        i += 1;
    }
    proof {
        assert(out.deep_view() =~= lines.deep_view());
    }
    out
}

/// The value bound to `key` in an alias table or size cache, the latest
/// entry winning.
pub open spec fn spec_table_get(entries: Seq<(String, usize)>, key: Seq<char>) -> Option<usize>
    decreases entries.len(),
{
    if entries.len() == 0 {
        None
    } else if entries.last().0@ == key {
        Some(entries.last().1)
    } else {
        spec_table_get(entries.drop_last(), key)
    }
}

/// Looks `key` up in a table, the latest entry winning.
fn table_get(entries: &Vec<(String, usize)>, key: &str) -> (r: Option<usize>)
    ensures
        r == spec_table_get(entries@, key@),
{
    let n = entries.len();
    proof {
        assert(entries@.subrange(0, n as int) =~= entries@);
    }
    let mut i: usize = n;
    while i > 0
        invariant
            0 <= i <= n,
            n == entries@.len(),
            spec_table_get(entries@, key@) == spec_table_get(
                entries@.subrange(0, i as int),
                key@,
            ),
        decreases i,
    {
        proof {
            assert(entries@.subrange(0, i as int).drop_last() =~= entries@.subrange(0, i - 1));
        }
        if str_eq(entries[i - 1].0.as_str(), key) {
            return Some(entries[i - 1].1);
        }
        i -= 1;
    }
    proof {
        assert(entries@.subrange(0, 0) =~= Seq::<(String, usize)>::empty());
    }
    None
}

/// Copies a table.
fn clone_table(entries: &Vec<(String, usize)>) -> (r: Vec<(String, usize)>)
    ensures
        forall|k: Seq<char>| #[trigger] spec_table_get(r@, k) == spec_table_get(entries@, k),
        r@.len() == entries@.len(),
{
    let mut out: Vec<(String, usize)> = Vec::new();
    let n = entries.len();
    let mut i: usize = 0;
    while i < n
        invariant
            0 <= i <= n,
            n == entries@.len(),
            out@.len() == i,
            forall|j: int| 0 <= j < i ==> (#[trigger] out@[j]).0@ == entries@[j].0@ && out@[j].1
                == entries@[j].1,
        decreases n - i,
    {
        let ghost prev = out@;
        out.push((entries[i].0.clone(), entries[i].1));
        proof {
            assert forall|j: int| 0 <= j < i + 1 implies (#[trigger] out@[j]).0@
                == entries@[j].0@ && out@[j].1 == entries@[j].1 by {
                if j < i {
                    assert(out@[j] == prev[j]);
                    assert(prev[j].0@ == entries@[j].0@ && prev[j].1 == entries@[j].1);
                } else {
                    assert(out@[j].0@ == entries@[j].0@ && out@[j].1 == entries@[j].1);
                }
            }
        }
        i += 1;
    }
    proof {
        assert forall|k: Seq<char>| #[trigger] spec_table_get(out@, k) == spec_table_get(
            entries@,
            k,
        ) by {
            lemma_table_get_congruence(out@, entries@, k);
        }
    }
    out
}

proof fn lemma_table_get_congruence(a: Seq<(String, usize)>, b: Seq<(String, usize)>, k: Seq<char>)
    requires
        a.len() == b.len(),
        forall|j: int| 0 <= j < a.len() ==> (#[trigger] a[j]).0@ == b[j].0@ && a[j].1 == b[j].1,
    ensures
        spec_table_get(a, k) == spec_table_get(b, k),
    decreases a.len(),
{
    if a.len() > 0 {
        assert(a.last().0@ == b.last().0@);
        assert forall|j: int| 0 <= j < a.drop_last().len() implies (#[trigger] a.drop_last()[j]).0@
            == b.drop_last()[j].0@ && a.drop_last()[j].1 == b.drop_last()[j].1 by {
            assert(a.drop_last()[j] == a[j]);
            assert(b.drop_last()[j] == b[j]);
            assert(a[j].0@ == b[j].0@ && a[j].1 == b[j].1);
        }
        lemma_table_get_congruence(a.drop_last(), b.drop_last(), k);
    }
}

/// Copies a list of paths.
fn clone_paths(entries: &Vec<String>) -> (r: Vec<String>)
    ensures
        r.deep_view() == entries.deep_view(),
{
    let mut out: Vec<String> = Vec::new();
    let n = entries.len();
    let mut i: usize = 0;
    while i < n
        invariant
            0 <= i <= n,
            n == entries@.len(),
            out@.len() == i,
            forall|j: int| 0 <= j < i ==> #[trigger] out@[j]@ == entries@[j]@,
        decreases n - i,
    {
        out.push(entries[i].clone());
        i += 1;
    }
    proof {
        assert(out.deep_view() =~= entries.deep_view());
    }
    out
}

/// How many parameter lines each opcode takes.
pub open spec fn spec_param_count(opcode: u8) -> u8 {
    if opcode == 1 || opcode == 2 || opcode == 4 || opcode == 6 {
        3
    } else if opcode == 3 || opcode == 5 || opcode == 9 || opcode == 10 || opcode == 12
        || opcode == 13 || opcode == 15 {
        1
    } else {
        0
    }
}

fn param_count(opcode: u8) -> (r: u8)
    ensures
        r == spec_param_count(opcode),
        r <= 3,
{
    if opcode == 1 || opcode == 2 || opcode == 4 || opcode == 6 {
        3
    } else if opcode == 3 || opcode == 5 || opcode == 9 || opcode == 10 || opcode == 12
        || opcode == 13 || opcode == 15 {
        1
    } else {
        0
    }
}

pub struct Compiler<I: Infra> {
    pub lines: Vec<String>,
    pub names: Vec<(String, usize)>,
    pub files: Vec<(String, usize)>,
    pub pos: usize,
    pub debug: bool,
    pub current_command: usize,
    pub buffer: Vec<u8>,
    pub infra: I,
    pub is_preload: bool,
    pub compiled_stack: Vec<String>,
    pub last_opcode: u8,
    pub offset: usize,
    pub inner: usize,
    pub path: String,
    pub sources: Sources,
}

impl<I: Infra> Compiler<I> {
    /// The compiler's invariant: the buffer always holds exactly one
    /// 15-byte record per emitted command, each of them well formed.
    pub open spec fn wf(&self) -> bool {
        &&& self.buffer@.len() == 15 * self.current_command
        &&& spec_buffer_wf(self.buffer@)
    }

    /// The alias table built by the first pass.
    pub open spec fn names_view(&self) -> Seq<(String, usize)> {
        self.names@
    }

    /// A compiler for the unit stored under `path` in the source tree;
    /// missing paths are reported as the missing files they are.
    pub fn new(path: String, sources: Sources, infra: I) -> (r: Result<Self, IError>)
        ensures
            r is Ok <==> spec_sources_get(sources.files@, path@) is Some,
            r is Ok ==> r->Ok_0.wf(),
            r is Ok ==> r->Ok_0.lines.deep_view() == spec_sources_get(sources.files@, path@)->0,
            r is Ok ==> r->Ok_0.names_view().len() == 0,
    {
        let lines = match sources.get(path.as_str()) {
            Some(lines) => clone_lines(lines),
            None => {
                let mut message = String::new();
                message.append("No such file '");
                message.append(path.as_str());
                message.append("' (os error 2)");
                return Err(IError::from_string(message));
            },
        };
        Ok(
            Compiler {
                buffer: Vec::new(),
                debug: false,
                infra,
                last_opcode: 0,
                offset: 0,
                files: Vec::new(),
                is_preload: false,
                lines,
                current_command: 0,
                names: Vec::new(),
                compiled_stack: Vec::new(),
                pos: 0,
                path,
                inner: 0,
                sources,
            },
        )
    }

    /// Records that this compiler sits one include level below `current`.
    pub fn inner_in(&mut self, current: usize)
        ensures
            *final(self) == (Compiler { inner: final(self).inner, ..*old(self) }),
            current < usize::MAX ==> final(self).inner == current + 1,
    {
        self.inner = if current < usize::MAX {
            current + 1
        } else {
            usize::MAX
        };
    }

    /// Hands this compiler an already-populated compiled-size cache.
    pub fn set_files(&mut self, new_compiled_files: Vec<(String, usize)>)
        ensures
            *final(self) == (Compiler { files: final(self).files, ..*old(self) }),
            final(self).files@ == new_compiled_files@,
    {
        self.files = new_compiled_files;
    }

    /// Installs the ancestor path list and extends it with `new_path`;
    /// meeting a path that is already on it means the includes have
    /// closed a cycle.
    pub fn compiled_stack(&mut self, current: Vec<String>, new_path: &str) -> (r: Result<
        (),
        IError,
    >)
        ensures
            r is Ok <==> !current.deep_view().contains(new_path@),
            r is Ok ==> final(self).compiled_stack.deep_view() == current.deep_view().push(
                new_path@,
            ),
            *final(self) == (Compiler {
                compiled_stack: final(self).compiled_stack,
                ..*old(self)
            }),
    {
        self.compiled_stack = current;
        if contains_path(&self.compiled_stack, new_path) {
            return Err(IError::message("Creating infinite compilation"));
        }
        self.compiled_stack.push(new_path.to_owned());
        proof {
            assert(self.compiled_stack.deep_view() =~= old(
                self,
            ).compiled_stack.deep_view().push(new_path@) || true);
        }
        Ok(())
    }

    /// Sets the global command offset this unit is compiled at.
    pub fn set_offset(&mut self, offset: usize)
        ensures
            *final(self) == (Compiler { offset, ..*old(self) }),
    {
        self.offset = offset;
    }

    /// Marks this compilation as a preload, which silences the include
    /// log.
    pub fn set_preload(&mut self, new_preload: bool)
        ensures
            *final(self) == (Compiler { is_preload: new_preload, ..*old(self) }),
    {
        self.is_preload = new_preload;
    }
}

/// Whether `paths` holds `p`.
fn contains_path(paths: &Vec<String>, p: &str) -> (r: bool)
    ensures
        r == paths.deep_view().contains(p@),
{
    let n = paths.len();
    let mut i: usize = 0;
    while i < n
        invariant
            0 <= i <= n,
            n == paths@.len(),
            forall|j: int| 0 <= j < i ==> paths.deep_view()[j] != p@,
        decreases n - i,
    {
        if str_eq(paths[i].as_str(), p) {
            proof {
                assert(paths.deep_view()[i as int] == p@);
            }
            return true;
        }
        i += 1;
    }
    false
}

/// The keyword spelling an immediate parameter.
pub open spec fn kw_comeu() -> Seq<char> {
    seq!['c', 'o', 'm', 'e', 'u']
}

/// The keyword spelling a stack-relative parameter.
pub open spec fn kw_chupou() -> Seq<char> {
    seq!['c', 'h', 'u', 'p', 'o', 'u']
}

/// The keyword spelling a direct-memory parameter.
pub open spec fn kw_fudeu() -> Seq<char> {
    seq!['f', 'u', 'd', 'e', 'u']
}

/// The keyword spelling an alias reference.
pub open spec fn kw_lambeu() -> Seq<char> {
    seq!['l', 'a', 'm', 'b', 'e', 'u']
}

/// The keyword spelling an indirect-memory parameter.
pub open spec fn kw_penetrou() -> Seq<char> {
    seq!['p', 'e', 'n', 'e', 't', 'r', 'o', 'u']
}

/// The keyword of the language, which also marks a convert flag on a
/// parameter line.
pub open spec fn kw_robson() -> Seq<char> {
    seq!['r', 'o', 'b', 's', 'o', 'n']
}

/// The include directive's keyword.
pub open spec fn kw_robsons() -> Seq<char> {
    seq!['r', 'o', 'b', 's', 'o', 'n', 's']
}

fn str_robson() -> (r: &'static str)
    ensures
        r@ == kw_robson(),
{
    proof {
        reveal_strlit("robson");
        assert("robson"@ =~= kw_robson());
    }
    "robson"
}

fn str_robsons() -> (r: &'static str)
    ensures
        r@ == kw_robsons(),
{
    proof {
        reveal_strlit("robsons");
        assert("robsons"@ =~= kw_robsons());
    }
    "robsons"
}

/// Strips the comment from a line: everything from the first semicolon on
/// is dropped, and the rest is trimmed.
fn strip_comment(string: &str) -> (r: &str)
    ensures
        r@ == spec_trim(spec_split(string@, ';')[0]),
{
    let len = string.unicode_len();
    let mut i: usize = 0;
    while i < len && string.get_char(i) != ';'
        invariant
            0 <= i <= len,
            len == string@.len(),
            forall|k: int| 0 <= k < i ==> string@[k] != ';',
        decreases len - i,
    {
        i += 1;
    }
    proof {
        crate::text::lemma_split_first_piece(string@, ';', i as int);
    }
    trim(string.substring_char(0, i))
}

impl<I: Infra> Compiler<I> {
    /// Strips the comment from a line: everything from the first
    /// semicolon on is dropped, and the rest is trimmed.
    pub fn remove_comments(string: &str) -> (r: &str)
        ensures
            r@ == spec_trim(spec_split(string@, ';')[0]),
    {
        strip_comment(string)
    }

    /// Parses one parameter line into its payload value, addressing mode
    /// code, type code, and convert flag. An empty parameter stands for
    /// an absent one and yields unsigned zero, immediate. The grammar is
    /// `MODE VALUE` with an optional trailing keyword setting the convert
    /// flag; `lambeu` resolves `:name` through the alias table to the
    /// command index recorded there. A stack-relative literal is read as
    /// written, untrimmed; the other modes trim theirs.
    pub fn get_kind_value(&self, parameter: &str) -> (r: Result<(TypedByte, u8, u8, bool), IError>)
        ensures
            r is Ok ==> r->Ok_0.1 < 4,
            spec_kind_value_total(self.names@, parameter@) is Some ==> r is Ok && r->Ok_0
                == spec_kind_value_total(self.names@, parameter@)->0,
            ({
                let pieces = spec_split(parameter@, ' ');
                let convert = pieces.len() == 3 && pieces[2] == kw_robson();
                &&& (parameter@.len() == 0 ==> r == Ok::<(TypedByte, u8, u8, bool), IError>(
                    (TypedByte { value: 0, typ: Type::Usigned }, 0u8, 0u8, false),
                ))
                &&& (parameter@.len() > 0 && pieces.len() < 2 ==> r is Err)
                &&& (parameter@.len() > 0 && pieces.len() == 3 && pieces[2] != kw_robson()
                    ==> r is Err)
                &&& (parameter@.len() > 0 && pieces.len() >= 2 && (pieces.len() == 3
                    ==> pieces[2] == kw_robson()) ==> {
                    let arg = spec_trim(pieces[1]);
                    &&& (pieces[0] == kw_comeu() ==> {
                        &&& (arg.len() == 0 ==> r is Err)
                        &&& (arg.len() > 0 && arg[0] == 'f' ==> (r is Ok ==> {
                            let (v, mode, types, conv) = r->Ok_0;
                            v.typ == Type::Floating && mode == 0 && types == 2 && conv == convert
                        }))
                        &&& (arg.len() > 0 && arg[0] == 'i' ==> {
                            let lit = spec_remove_char(arg, 'i');
                            &&& (r is Ok <==> spec_i32_literal_ok(lit))
                            &&& (r is Ok ==> r->Ok_0 == (
                                TypedByte {
                                    value: spec_i32_bits(spec_i32_literal_value(lit) as i32),
                                    typ: Type::Signed,
                                },
                                0u8,
                                1u8,
                                convert,
                            ))
                        })
                        &&& (arg.len() > 0 && arg[0] != 'f' && arg[0] != 'i' ==> {
                            &&& (r is Ok <==> spec_u32_literal_ok(arg))
                            &&& (r is Ok ==> r->Ok_0 == (
                                TypedByte {
                                    value: spec_u32_literal_value(arg) as u32,
                                    typ: Type::Usigned,
                                },
                                0u8,
                                0u8,
                                convert,
                            ))
                        })
                    })
                    &&& (pieces[0] == kw_chupou() ==> {
                        &&& (r is Ok <==> spec_u32_literal_ok(pieces[1]))
                        &&& (r is Ok ==> r->Ok_0 == (
                            TypedByte {
                                value: spec_u32_literal_value(pieces[1]) as u32,
                                typ: Type::Usigned,
                            },
                            1u8,
                            0u8,
                            convert,
                        ))
                    })
                    &&& (pieces[0] == kw_fudeu() ==> {
                        &&& (r is Ok <==> spec_u32_literal_ok(arg))
                        &&& (r is Ok ==> r->Ok_0 == (
                            TypedByte {
                                value: spec_u32_literal_value(arg) as u32,
                                typ: Type::Usigned,
                            },
                            2u8,
                            0u8,
                            convert,
                        ))
                    })
                    &&& (pieces[0] == kw_penetrou() ==> {
                        &&& (r is Ok <==> spec_u32_literal_ok(arg))
                        &&& (r is Ok ==> r->Ok_0 == (
                            TypedByte {
                                value: spec_u32_literal_value(arg) as u32,
                                typ: Type::Usigned,
                            },
                            3u8,
                            0u8,
                            convert,
                        ))
                    })
                    &&& (pieces[0] == kw_lambeu() ==> {
                        &&& (arg.len() == 0 ==> r is Err)
                        &&& (arg.len() > 0 && arg[0] != ':' ==> r is Err)
                        &&& (arg.len() > 0 && arg[0] == ':' ==> {
                            let name = spec_remove_char(arg, ':');
                            &&& (r is Ok <==> spec_table_get(self.names@, name) is Some)
                            &&& (r is Ok ==> r->Ok_0 == (
                                TypedByte {
                                    value: (spec_table_get(self.names@, name)->0 as int
                                        % 0x1_0000_0000int) as u32,
                                    typ: Type::Usigned,
                                },
                                0u8,
                                0u8,
                                convert,
                            ))
                        })
                    })
                    &&& (pieces[0] != kw_comeu() && pieces[0] != kw_chupou() && pieces[0]
                        != kw_fudeu() && pieces[0] != kw_penetrou() && pieces[0] != kw_lambeu()
                        ==> r is Err)
                })
            }),
    {
        proof {
            reveal(spec_kind_value_total);
            reveal_strlit("comeu");
            reveal_strlit("chupou");
            reveal_strlit("fudeu");
            reveal_strlit("lambeu");
            reveal_strlit("penetrou");
            reveal_strlit("robson");
            assert("comeu"@ =~= kw_comeu());
            assert("chupou"@ =~= kw_chupou());
            assert("fudeu"@ =~= kw_fudeu());
            assert("lambeu"@ =~= kw_lambeu());
            assert("penetrou"@ =~= kw_penetrou());
            assert("robson"@ =~= kw_robson());
        }
        if parameter.unicode_len() == 0 {
            return Ok((TypedByte::unsigned(0), 0, 0, false));
        }
        let splited = split_char(parameter, ' ');
        proof {
            lemma_split_len(parameter@, ' ');
        }
        if splited.len() < 2 {
            let mut message = String::new();
            message.append("Malformated param at line ");
            let n = usize_to_string(self.pos);
            message.append(n.as_str());
            return Err(IError::from_string(message));
        }
        let mut convert = false;
        if splited.len() == 3 {
            if str_eq(splited[2].as_str(), "robson") {
                convert = true;
            } else {
                let mut message = String::new();
                message.append("Malformated param at line ");
                let n = usize_to_string(self.pos);
                message.append(n.as_str());
                message.append(", expected 'robson'");
                return Err(IError::from_string(message));
            }
        }
        if str_eq(splited[0].as_str(), "comeu") {
            let value = trim(splited[1].as_str());
            if value.unicode_len() == 0 {
                let mut message = String::new();
                message.append("Malformated param at line ");
                let n = usize_to_string(self.pos);
                message.append(n.as_str());
                return Err(IError::from_string(message));
            }
            let first = value.get_char(0);
            if first == 'f' {
                let cleaned = remove_char(value, 'f');
                match self.infra.parse_float(cleaned.as_str()) {
                    Some(bits) => Ok((TypedByte::floating_bits(bits), 0, 2, convert)),
                    None => Err(IError::message("invalid float literal")),
                }
            } else if first == 'i' {
                let cleaned = remove_char(value, 'i');
                match parse_i32(cleaned.as_str()) {
                    Ok(v) => Ok((TypedByte::signed(v), 0, 1, convert)),
                    Err(e) => Err(IError::message(e)),
                }
            } else {
                match parse_u32(value) {
                    Ok(v) => Ok((TypedByte::unsigned(v), 0, 0, convert)),
                    Err(e) => Err(IError::message(e)),
                }
            }
        } else if str_eq(splited[0].as_str(), "chupou") {
            match parse_u32(splited[1].as_str()) {
                Ok(v) => Ok((TypedByte::unsigned(v), 1, 0, convert)),
                Err(e) => Err(IError::message(e)),
            }
        } else if str_eq(splited[0].as_str(), "fudeu") {
            match parse_u32(trim(splited[1].as_str())) {
                Ok(v) => Ok((TypedByte::unsigned(v), 2, 0, convert)),
                Err(e) => Err(IError::message(e)),
            }
        } else if str_eq(splited[0].as_str(), "lambeu") {
            let value = trim(splited[1].as_str());
            if value.unicode_len() == 0 || value.get_char(0) != ':' {
                let mut message = String::new();
                message.append("malformated name in command at ");
                let n = usize_to_string(self.pos);
                message.append(n.as_str());
                message.append(", '");
                message.append(value);
                message.append("'");
                return Err(IError::from_string(message));
            }
            let name = remove_char(value, ':');
            match table_get(&self.names, name.as_str()) {
                Some(a) => {
                    let truncated: u32 = (a as u64 % 0x1_0000_0000u64) as u32;
                    Ok((TypedByte::unsigned(truncated), 0, 0, convert))
                },
                None => {
                    let mut message = String::new();
                    message.append("cant find ");
                    message.append(name.as_str());
                    Err(IError::from_string(message))
                },
            }
        } else if str_eq(splited[0].as_str(), "penetrou") {
            match parse_u32(trim(splited[1].as_str())) {
                Ok(v) => Ok((TypedByte::unsigned(v), 3, 0, convert)),
                Err(e) => Err(IError::message(e)),
            }
        } else {
            let mut message = String::new();
            message.append("Unexpect token for param at line ");
            let n = usize_to_string(self.pos);
            message.append(n.as_str());
            message.append(", '");
            message.append(splited[0].as_str());
            message.append("'");
            Err(IError::from_string(message))
        }
    }
}

impl<I: Infra> Compiler<I> {
    /// Emits one 15-byte record for `opcode` with the given parameter
    /// lines: resolves each parameter, packs the kind and types bytes,
    /// and appends the record to the buffer. On any malformed parameter
    /// the buffer is left untouched.
    pub fn push_command(&mut self, opcode: u8, params: [String; 3]) -> (r: Result<(), IError>)
        requires
            opcode <= 16,
            old(self).wf(),
        ensures
            final(self).wf(),
            *final(self) == (Compiler {
                buffer: final(self).buffer,
                current_command: final(self).current_command,
                ..*old(self)
            }),
            r is Err ==> final(self).buffer@ == old(self).buffer@ && final(self).current_command
                == old(self).current_command,
            r is Ok ==> final(self).current_command == old(self).current_command + 1,
            r is Ok ==> exists|c: Command|
                #![auto]
                spec_command_wf(c) && c.opcode == opcode && final(self).buffer@ == old(
                    self,
                ).buffer@ + spec_encode(c),
            params[0]@.len() == 0 && params[1]@.len() == 0 && params[2]@.len() == 0 ==> r is Ok,
            ({
                let t1 = spec_kind_value_total(old(self).names@, spec_trim(params[0]@));
                let t2 = spec_kind_value_total(old(self).names@, spec_trim(params[1]@));
                let t3 = spec_kind_value_total(old(self).names@, spec_trim(params[2]@));
                t1 is Some && t2 is Some && t3 is Some ==> {
                    let (v1, m1, ty1, c1) = t1->0;
                    let (v2, m2, ty2, c2) = t2->0;
                    let (v3, m3, ty3, c3) = t3->0;
                    r is Ok && final(self).buffer@ == old(self).buffer@ + spec_encode(
                        Command {
                            opcode,
                            param1: Param { value: v1, mode: m1 as usize, convert: c1 },
                            param2: Param { value: v2, mode: m2 as usize, convert: c2 },
                            param3: Param { value: v3, mode: m3 as usize, convert: c3 },
                        },
                    )
                }
            }),
    {
        let p1 = match self.get_kind_value(trim(params[0].as_str())) {
            Ok(v) => v,
            Err(e) => {
                return Err(e);
            },
        };
        let p2 = match self.get_kind_value(trim(params[1].as_str())) {
            Ok(v) => v,
            Err(e) => {
                return Err(e);
            },
        };
        let p3 = match self.get_kind_value(trim(params[2].as_str())) {
            Ok(v) => v,
            Err(e) => {
                return Err(e);
            },
        };
        let command = Command {
            opcode,
            param1: Param { value: p1.0, mode: p1.1 as usize, convert: p1.3 },
            param2: Param { value: p2.0, mode: p2.1 as usize, convert: p2.3 },
            param3: Param { value: p3.0, mode: p3.1 as usize, convert: p3.3 },
        };
        encode_command(&command, &mut self.buffer);
        proof {
            lemma_encode_buffer_wf(command);
            crate::encoding::lemma_buffer_wf_concat(old(self).buffer@, spec_encode(command));
        }
        self.current_command = self.buffer.len() / 15;
        proof {
            assert(spec_command_wf(command) && command.opcode == opcode && self.buffer@ == old(
                self,
            ).buffer@ + spec_encode(command));
        }
        Ok(())
    }
}


/// A unit whose every line is blank once its comment is stripped.
#[verifier::opaque]
pub open spec fn spec_blank_unit(lines: Seq<Seq<char>>) -> bool {
    forall|i: int| 0 <= i < lines.len() ==> spec_trim(
        #[trigger] spec_split(lines[i], ';')[0],
    ).len() == 0
}

/// Every binding of `older` is still bound, with the same value, in
/// `newer`: the compiled-size cache only grows.
pub open spec fn spec_table_extends(
    newer: Seq<(String, usize)>,
    older: Seq<(String, usize)>,
) -> bool {
    forall|k: Seq<char>|
        spec_table_get(older, k) is Some ==> #[trigger] spec_table_get(newer, k)
            == spec_table_get(older, k)
}

/// No two entries of an alias table share a name.
pub open spec fn spec_names_distinct(entries: Seq<(String, usize)>) -> bool {
    forall|i: int, j: int| 0 <= i < j < entries.len() ==> (#[trigger] entries[i]).0@
        != (#[trigger] entries[j]).0@
}

proof fn lemma_table_get_none(entries: Seq<(String, usize)>, key: Seq<char>)
    requires
        spec_table_get(entries, key) is None,
    ensures
        forall|j: int| 0 <= j < entries.len() ==> (#[trigger] entries[j]).0@ != key,
    decreases entries.len(),
{
    if entries.len() > 0 {
        lemma_table_get_none(entries.drop_last(), key);
        assert forall|j: int| 0 <= j < entries.len() implies (#[trigger] entries[j]).0@ != key by {
            if j < entries.len() - 1 {
                assert(entries.drop_last()[j] == entries[j]);
            }
        }
    }
}

impl<I: Infra> Compiler<I> {
    /// The first pass: walks the lines, recording each alias as the
    /// command index (plus this unit's offset) of the next instruction,
    /// counting opcode lines and implicit pushes, and sizing each include
    /// through the compiled-size cache. A duplicate alias, a malformed
    /// include, a bad opcode token, or a failing include stops the pass.
    fn start_alias_inner(&mut self, fuel: usize) -> (r: Option<IError>)
        ensures
            *final(self) == (Compiler {
                names: final(self).names,
                files: final(self).files,
                infra: final(self).infra,
                ..*old(self)
            }),
            spec_names_distinct(old(self).names@) ==> spec_names_distinct(final(self).names@),
            old(self).names@.len() == 0 && r is None ==> exists|sizes: Seq<nat>|
                spec_pass1_names(old(self).lines.deep_view(), old(self).offset as nat, sizes)
                    == Some(spec_names_deep(final(self).names@)),
            spec_blank_unit(old(self).lines.deep_view()) ==> r is None && final(self).names@
                == old(self).names@,
            old(self).names@.len() == 0 && spec_no_includes(old(self).lines.deep_view())
                && old(self).offset + old(self).lines@.len() <= usize::MAX
                && spec_pass1_names(old(self).lines.deep_view(), old(self).offset as nat,
                Seq::empty()) is Some ==> r is None,
            old(self).names@.len() == 0 && spec_no_includes(old(self).lines.deep_view())
                && spec_pass1_names(old(self).lines.deep_view(), old(self).offset as nat,
                Seq::empty()) is None ==> r is Some,
            spec_table_extends(final(self).files@, old(self).files@),
        decreases fuel, 1int,
    {
        let mut command_number: usize = 0;
        let mut last_value: usize = 0;
        let mut last_pos: usize = 0;
        let n = self.lines.len();
        let ghost base = *self;
        let ghost init = Pass1 {
            command_number: 0,
            last_value: 0,
            last_pos: 0,
            names: spec_names_deep(base.names@),
            used: 0,
        };
        let ghost mut consumed: Seq<nat> = Seq::empty();
        let ghost clean = old(self).names@.len() == 0 && spec_no_includes(
            old(self).lines.deep_view(),
        ) && old(self).offset + old(self).lines@.len() <= usize::MAX && spec_pass1_names(
            old(self).lines.deep_view(),
            old(self).offset as nat,
            Seq::empty(),
        ) is Some;
        proof {
            if old(self).names@.len() == 0 {
                assert(spec_names_deep(old(self).names@) =~= Seq::<(Seq<char>, nat)>::empty());
            }
        }
        let mut pos: usize = 0;
        while pos < n
            invariant
                0 <= pos <= n,
                n == self.lines@.len(),
                last_pos <= pos,
                base == *old(self),
                clean == (old(self).names@.len() == 0 && spec_no_includes(
                    old(self).lines.deep_view(),
                ) && old(self).offset + old(self).lines@.len() <= usize::MAX && spec_pass1_names(
                    old(self).lines.deep_view(),
                    old(self).offset as nat,
                    Seq::empty(),
                ) is Some),
                old(self).names@.len() == 0 ==> init.names == Seq::<(Seq<char>, nat)>::empty(),
                spec_no_includes(old(self).lines.deep_view()) ==> consumed
                    == Seq::<nat>::empty(),
                spec_no_includes(old(self).lines.deep_view()) ==> command_number <= pos,
                spec_table_extends(self.files@, old(self).files@),
                *self == (Compiler {
                    names: self.names,
                    files: self.files,
                    infra: self.infra,
                    ..base
                }),
                spec_names_distinct(base.names@) ==> spec_names_distinct(self.names@),
                init == (Pass1 {
                    command_number: 0,
                    last_value: 0,
                    last_pos: 0,
                    names: spec_names_deep(base.names@),
                    used: 0,
                }),
                consumed.len() >= 0,
                spec_pass1_upto(base.lines.deep_view(), pos as int, init, base.offset as nat,
                    consumed) == Some(Pass1 {
                    command_number: command_number as nat,
                    last_value: last_value as nat,
                    last_pos: last_pos as nat,
                    names: spec_names_deep(self.names@),
                    used: consumed.len(),
                }),
                spec_blank_unit(base.lines.deep_view()) ==> self.names@ == base.names@,
            decreases n - pos,
        {
            let ghost cur = Pass1 {
                command_number: command_number as nat,
                last_value: last_value as nat,
                last_pos: last_pos as nat,
                names: spec_names_deep(self.names@),
                used: consumed.len(),
            };
            let ghost line_deep = base.lines.deep_view()[pos as int];
            let line = self.lines[pos].clone();
            proof {
                assert(line@ == line_deep);
            }
            let string = Self::remove_comments(line.as_str());
            if string.unicode_len() == 0 {
                proof {
                    assert(spec_pass1_step(cur, line_deep, pos as nat, base.offset as nat,
                        consumed) == Some(cur));
                }
                pos += 1;
                continue;
            }
            proof {
                reveal(spec_blank_unit);
                if spec_blank_unit(base.lines.deep_view()) {
                    assert(spec_trim(
                        spec_split(base.lines.deep_view()[pos as int], ';')[0],
                    ).len() == 0);
                    assert(string@.len() == 0);
                }
            }
            if ends_with_char(string, ':') {
                let value = remove_char(string, ':');
                if table_get(&self.names, value.as_str()).is_some() {
                    proof {
                        if clean {
                            lemma_pass1_prefix_some(base.lines.deep_view(), pos + 1, n as int,
                                init, base.offset as nat, Seq::empty());
                            lemma_names_deep_lookup(self.names@, value@);
                            assert(spec_pass1_step(cur, line_deep, pos as nat,
                                base.offset as nat, Seq::empty()) is Some);
                            assert(false);
                        }
                    }
                    let mut message = String::new();
                    message.append("duplicate alias: ");
                    message.append(value.as_str());
                    return Some(IError::from_string(message));
                }
                if self.debug {
                    let mut message = String::new();
                    message.append(value.as_str());
                    message.append(": ");
                    let pn = usize_to_string(pos + 1);
                    message.append(pn.as_str());
                    self.infra.println(message);
                }
                let target = match command_number.checked_add(self.offset) {
                    Some(v) => v,
                    None => {
                        return Some(IError::message("program too large"));
                    },
                };
                proof {
                    lemma_table_get_none(self.names@, value@);
                    lemma_names_deep_lookup(self.names@, value@);
                }
                let ghost names_before = self.names@;
                self.names.push((value, target));
                proof {
                    assert(spec_names_deep(self.names@) =~= spec_names_deep(names_before).push(
                        (value@, target as nat),
                    ));
                    assert(self.offset == base.offset);
                    assert(spec_pass1_step(cur, line_deep, pos as nat, base.offset as nat,
                        consumed) == Some(Pass1 { names: cur.names.push((value@, target as nat)), ..cur }));
                }
            } else if starts_with(string, str_robsons()) {
                let splited = split_char(string, ' ');
                if splited.len() != 2 {
                    return Some(IError::message("malformated robsons"));
                }
                let ghost files_mid = self.files@;
                let new_offset = match self.get_cached_inner(
                    splited[1].as_str(),
                    command_number,
                    fuel,
                ) {
                    Ok(v) => v,
                    Err(err) => {
                        proof {
                            assert forall|k: Seq<char>|
                                spec_table_get(old(self).files@, k) is Some
                                    implies #[trigger] spec_table_get(self.files@, k)
                                    == spec_table_get(old(self).files@, k) by {
                                assert(spec_table_get(files_mid, k) == spec_table_get(
                                    old(self).files@,
                                    k,
                                ));
                            }
                        }
                        return Some(err);
                    },
                };
                proof {
                    assert forall|k: Seq<char>| spec_table_get(old(self).files@, k) is Some
                        implies #[trigger] spec_table_get(self.files@, k) == spec_table_get(
                        old(self).files@,
                        k,
                    ) by {
                        assert(spec_table_get(files_mid, k) == spec_table_get(
                            old(self).files@,
                            k,
                        ));
                    }
                }
                command_number = match command_number.checked_add(new_offset) {
                    Some(v) => v,
                    None => {
                        return Some(IError::message("program too large"));
                    },
                };
                proof {
                    assert(splited.deep_view().len() == 2);
                    lemma_pass1_used_bounded(base.lines.deep_view(), pos as int, init,
                        base.offset as nat, consumed);
                    lemma_pass1_sizes_extend(base.lines.deep_view(), pos as int, init,
                        base.offset as nat, consumed, new_offset as nat);
                    consumed = consumed.push(new_offset as nat);
                    assert(consumed[cur.used as int] == new_offset as nat);
                    assert(spec_pass1_step(cur, line_deep, pos as nat, base.offset as nat,
                        consumed) == Some(Pass1 {
                        command_number: (cur.command_number + new_offset) as nat,
                        used: (cur.used + 1) as nat,
                        ..cur
                    }));
                }
            } else if starts_with(string, str_robson()) {
                command_number = match command_number.checked_add(1) {
                    Some(v) => v,
                    None => {
                        return Some(IError::message("program too large"));
                    },
                };
                let splited = split_char(string, ' ');
                proof {
                    if clean {
                        lemma_pass1_prefix_some(base.lines.deep_view(), pos + 1, n as int, init,
                            base.offset as nat, Seq::empty());
                        assert(spec_pass1_step(cur, line_deep, pos as nat, base.offset as nat,
                            Seq::empty()) is Some);
                        assert(forall|j: int|
                            0 <= j < spec_split(string@, ' ').len() ==> #[trigger] spec_split(
                                string@,
                                ' ',
                            )[j] == kw_robson());
                    }
                }
                let mut opcode: usize = 0;
                let mut i: usize = 0;
                let token_count = splited.len();
                while i < token_count
                    invariant
                        0 <= i <= token_count,
                        token_count == splited@.len(),
                        splited.deep_view() == spec_split(string@, ' '),
                        forall|j: int| 0 <= j < i ==> #[trigger] splited.deep_view()[j]
                            == kw_robson(),
                        opcode == i,
                        pos < n,
                        n == self.lines@.len(),
                        !spec_blank_unit(old(self).lines.deep_view()),
                        clean == (old(self).names@.len() == 0 && spec_no_includes(
                            old(self).lines.deep_view(),
                        ) && old(self).offset + old(self).lines@.len() <= usize::MAX
                            && spec_pass1_names(old(self).lines.deep_view(),
                            old(self).offset as nat, Seq::empty()) is Some),
                        clean ==> forall|j: int|
                            0 <= j < spec_split(string@, ' ').len() ==> #[trigger] spec_split(
                                string@,
                                ' ',
                            )[j] == kw_robson(),
                        spec_table_extends(self.files@, old(self).files@),
                        base == *old(self),
                        *self == (Compiler {
                            names: self.names,
                            files: self.files,
                            infra: self.infra,
                            ..base
                        }),
                        spec_names_distinct(base.names@) ==> spec_names_distinct(self.names@),
                    decreases token_count - i,
                {
                    if !str_eq(splited[i].as_str(), str_robson()) {
                        proof {
                            if clean {
                                assert(splited.deep_view()[i as int] == splited@[i as int]@);
                                assert(false);
                            }
                        }
                        let mut message = String::new();
                        message.append("invalid token for opcode in line ");
                        let pn = usize_to_string(pos + 1);
                        message.append(pn.as_str());
                        message.append(", '");
                        message.append(splited[i].as_str());
                        message.append("'");
                        return Some(IError::from_string(message));
                    }
                    proof {
                        assert(splited.deep_view()[i as int] == splited@[i as int]@);
                    }
                    opcode += 1;
                    i += 1;
                }
                last_value = opcode;
                last_pos = pos;
                proof {
                    assert(forall|j: int| 0 <= j < spec_split(string@, ' ').len()
                        ==> #[trigger] spec_split(string@, ' ')[j] == kw_robson());
                    assert(spec_pass1_step(cur, line_deep, pos as nat, base.offset as nat,
                        consumed) == Some(Pass1 {
                        command_number: (cur.command_number + 1) as nat,
                        last_value: spec_split(string@, ' ').len(),
                        last_pos: pos as nat,
                        ..cur
                    }));
                }
            } else if last_value == 3 && last_pos + 1 != pos {
                command_number = match command_number.checked_add(1) {
                    Some(v) => v,
                    None => {
                        return Some(IError::message("program too large"));
                    },
                };
                proof {
                    assert(spec_pass1_step(cur, line_deep, pos as nat, base.offset as nat,
                        consumed) == Some(Pass1 {
                        command_number: (cur.command_number + 1) as nat,
                        ..cur
                    }));
                }
            } else {
                proof {
                    assert(spec_pass1_step(cur, line_deep, pos as nat, base.offset as nat,
                        consumed) == Some(cur));
                }
            }
            pos += 1;
        }
        proof {
            if old(self).names@.len() == 0 {
                assert(spec_names_deep(base.names@) =~= Seq::<(Seq<char>, nat)>::empty());
                assert(init == (Pass1 {
                    command_number: 0,
                    last_value: 0,
                    last_pos: 0,
                    names: Seq::<(Seq<char>, nat)>::empty(),
                    used: 0,
                }));
                assert(spec_pass1_names(old(self).lines.deep_view(), old(self).offset as nat,
                    consumed) == Some(spec_names_deep(self.names@)));
            }
        }
        None
    }

    /// The size in commands of the unit at `path`: answered from the
    /// compiled-size cache, or by compiling the unit once as a preload at
    /// offset `command_number`, caching and returning its command count.
    fn get_cached_inner(&mut self, path: &str, command_number: usize, fuel: usize) -> (r: Result<
        usize,
        IError,
    >)
        ensures
            *final(self) == (Compiler {
                files: final(self).files,
                infra: final(self).infra,
                ..*old(self)
            }),
            spec_table_get(old(self).files@, path@) is Some ==> r == Ok::<usize, IError>(
                spec_table_get(old(self).files@, path@)->0,
            ) && final(self).files@ == old(self).files@,
            spec_table_extends(final(self).files@, old(self).files@),
            r is Ok ==> spec_table_get(final(self).files@, path@) == Some(r->Ok_0),
        decreases fuel, 0int,
    {
        match table_get(&self.files, path) {
            Some(a) => Ok(a),
            None => {
                if fuel == 0 {
                    return Err(IError::message("Creating infinite compilation"));
                }
                let mut compiler = match Compiler::new(
                    path.to_owned(),
                    self.sources.duplicate(),
                    self.infra.clone_self(),
                ) {
                    Ok(a) => a,
                    Err(err) => {
                        return Err(err);
                    },
                };
                let mut message = String::new();
                message.append("Preloading ");
                message.append(path);
                message.append("\n");
                self.infra.color_print(message, 14);
                compiler.set_offset(command_number);
                compiler.set_preload(true);
                compiler.inner_in(self.inner);
                compiler.set_files(clone_table(&self.files));
                match compiler.compiled_stack(clone_paths(&self.compiled_stack), self.path.as_str())
                {
                    Ok(()) => {},
                    Err(err) => {
                        return Err(err);
                    },
                }
                match compiler.compile_inner(fuel - 1) {
                    Ok(_) => {
                        let ghost before = old(self).files@;
                        let ghost child_final = compiler.files@;
                        self.files = clone_table(&compiler.files);
                        let ghost cloned = self.files@;
                        self.files.push((path.to_owned(), compiler.current_command));
                        proof {
                            assert(self.files@.drop_last() =~= cloned);
                            assert(self.files@.last().0@ == path@);
                            assert(spec_table_get(self.files@, path@) == Some(
                                compiler.current_command,
                            ));
                            assert forall|k: Seq<char>| spec_table_get(before, k) is Some
                                implies #[trigger] spec_table_get(self.files@, k)
                                == spec_table_get(before, k) by {
                                assert(k != path@);
                                assert(spec_table_get(self.files@, k) == spec_table_get(
                                    cloned,
                                    k,
                                ));
                                assert(spec_table_get(cloned, k) == spec_table_get(
                                    child_final,
                                    k,
                                ));
                            }
                        }
                        Ok(compiler.current_command)
                    },
                    Err(err) => Err(err),
                }
            },
        }
    }


    /// Compiles the unit that an include directive names and splices its
    /// buffer onto this one, at the right global offset.
    fn compile_include(&mut self, string: &str, fuel: usize) -> (r: Result<(), IError>)
        requires
            old(self).wf(),
            fuel >= 1,
        ensures
            final(self).wf(),
            *final(self) == (Compiler {
                buffer: final(self).buffer,
                current_command: final(self).current_command,
                infra: final(self).infra,
                ..*old(self)
            }),
            final(self).buffer@.len() >= old(self).buffer@.len(),
            final(self).buffer@.subrange(0, old(self).buffer@.len() as int) == old(
                self,
            ).buffer@,
        decreases fuel, 1int,
    {
        let splited = split_char(string, ' ');
        if splited.len() != 2 {
            return Err(IError::message("Malformated robsons"));
        }
        let file_path = splited[1].clone();
        if !self.is_preload {
            let mut inner_spaces = String::new();
            if self.inner > 0 {
                if self.inner > 1 {
                    let mut q: usize = 0;
                    while q < self.inner
                        invariant
                            q <= self.inner,
                        decreases self.inner - q,
                    {
                        inner_spaces.append("  ");
                        q += 1;
                    }
                }
                inner_spaces.append(" +->");
            }
            self.infra.color_print(inner_spaces, 40);
            let mut message = String::new();
            message.append(" Compiling ");
            message.append(file_path.as_str());
            message.append("\n");
            self.infra.color_print(message, 2);
        }
        let mut compiler = match Compiler::new(
            file_path,
            self.sources.duplicate(),
            self.infra.clone_self(),
        ) {
            Ok(a) => a,
            Err(err) => {
                return Err(err);
            },
        };
        compiler.set_files(clone_table(&self.files));
        compiler.set_preload(self.is_preload);
        compiler.inner_in(self.inner);
        let child_offset = match self.current_command.checked_add(self.offset) {
            Some(v) => v,
            None => {
                return Err(IError::message("program too large"));
            },
        };
        compiler.set_offset(child_offset);
        let mut buffer = match compiler.compile_inner(fuel - 1) {
            Ok(b) => b,
            Err(err) => {
                return Err(err);
            },
        };
        proof {
            crate::encoding::lemma_buffer_wf_concat(self.buffer@, buffer@);
        }
        let ghost before = self.buffer@;
        self.buffer.append(&mut buffer);
        self.current_command = self.buffer.len() / 15;
        proof {
            assert(self.buffer@.subrange(0, before.len() as int) =~= before);
        }
        Ok(())
    }



    /// Reads the parameter lines of an opcode line: advances past `pc`
    /// lines, each of which must exist and hold more than one character
    /// once trimmed, and hands them back (with empty strings for the
    /// parameters the opcode does not take).
    fn collect_params(
        &mut self,
        pc: u8,
        Ghost(lines0): Ghost<Seq<Seq<char>>>,
        Ghost(expected): Ghost<bool>,
    ) -> (r: Result<(String, String, String), IError>)
        requires
            old(self).wf(),
            old(self).pos < old(self).lines@.len(),
            lines0 == old(self).lines.deep_view(),
            pc <= 3,
            expected ==> old(self).pos + pc < old(self).lines@.len(),
            expected ==> forall|j: int|
                1 <= j <= pc ==> spec_trim(#[trigger] lines0[old(self).pos + j]).len() >= 2,
        ensures
            *final(self) == (Compiler { pos: final(self).pos, ..*old(self) }),
            final(self).wf(),
            expected ==> r is Ok,
            r is Ok ==> {
                let (param0, param1, param2) = r->Ok_0;
                &&& final(self).pos == old(self).pos + pc
                &&& final(self).pos < old(self).lines@.len() || pc == 0
                &&& spec_trim(param0@) == spec_param_at(lines0, old(self).pos as int, 1, pc as int)
                &&& spec_trim(param1@) == spec_param_at(lines0, old(self).pos as int, 2, pc as int)
                &&& spec_trim(param2@) == spec_param_at(lines0, old(self).pos as int, 3, pc as int)
            },
    {
        let n = self.lines.len();
        let mut params_vec: Vec<String> = Vec::new();
        let ghost pos_b = self.pos as int;
        let ghost base_iter = *self;
        let mut i: u8 = 0;
        #[verifier::loop_isolation(false)]
        while i < pc
            invariant
                i <= pc <= 3,
                self.pos == pos_b + i,
                self.pos <= n,
                pos_b < n,
                i > 0 ==> self.pos < n,
                params_vec@.len() == i,
                forall|j: int| 0 <= j < i ==> #[trigger] params_vec@[j]@ == lines0[pos_b + 1
                    + j],
                *self == (Compiler { pos: self.pos, ..base_iter }),
            decreases pc - i,
        {
            self.pos += 1;
            proof {
                assert(self.pos == pos_b + i + 1);
                assert(self.pos > i as usize);
            }
            if self.pos >= n {
                proof {
                    if expected {
                        assert(false);
                    }
                }
                let mut message = String::new();
                message.append("missing params command of line ");
                let pn = usize_to_string(self.pos - i as usize);
                message.append(pn.as_str());
                return Err(IError::from_string(message));
            }
            let string = self.lines[self.pos].clone();
            if trim(string.as_str()).unicode_len() < 2 {
                proof {
                    if expected {
                        assert(string@ == lines0[pos_b + i + 1]);
                        assert(false);
                    }
                }
                let mut message = String::new();
                message.append("missing params command of line ");
                let pn = usize_to_string(self.pos - i as usize);
                message.append(pn.as_str());
                return Err(IError::from_string(message));
            }
            params_vec.push(string);
            i += 1;
        }
        let param0 = if params_vec.len() >= 1 {
            params_vec[0].clone()
        } else {
            String::new()
        };
        let param1 = if params_vec.len() >= 2 {
            params_vec[1].clone()
        } else {
            String::new()
        };
        let param2 = if params_vec.len() >= 3 {
            params_vec[2].clone()
        } else {
            String::new()
        };
        proof {
            assert(spec_trim(param0@) == spec_param_at(lines0, pos_b, 1, pc as int)
                && spec_trim(param1@) == spec_param_at(lines0, pos_b, 2, pc as int)
                && spec_trim(param2@) == spec_param_at(lines0, pos_b, 3, pc as int)) by {
                if pc >= 1 {
                    assert(param0@ == lines0[pos_b + 1]);
                } else {
                    assert(param0@ =~= Seq::<char>::empty());
                    assert(spec_trim(param0@) =~= Seq::<char>::empty());
                }
                if pc >= 2 {
                    assert(param1@ == lines0[pos_b + 2]);
                } else {
                    assert(param1@ =~= Seq::<char>::empty());
                    assert(spec_trim(param1@) =~= Seq::<char>::empty());
                }
                if pc >= 3 {
                    assert(param2@ == lines0[pos_b + 3]);
                } else {
                    assert(param2@ =~= Seq::<char>::empty());
                    assert(spec_trim(param2@) =~= Seq::<char>::empty());
                }
            }
        }
        Ok((param0, param1, param2))
    }

    /// One statement of the second pass: an implicit push where the last
    /// opcode line was a push and this line carries no keyword, and
    /// otherwise an opcode line followed by its parameter lines, emitted
    /// as one record. Where the emission model applies, the effect is
    /// exactly its step.
    #[verifier::rlimit(100)]
    fn compile_statement(
        &mut self,
        string: &str,
        Ghost(lines0): Ghost<Seq<Seq<char>>>,
        Ghost(modeled): Ghost<bool>,
    ) -> (r: Result<(), IError>)
        requires
            old(self).wf(),
            old(self).pos < old(self).lines@.len(),
            lines0 == old(self).lines.deep_view(),
            string@ == spec_trim(spec_split(lines0[old(self).pos as int], ';')[0]),
            string@.len() > 0,
            string@.last() != ':',
            !spec_contains_str(string@, kw_robsons()),
            modeled ==> spec_pass2_step(
                lines0,
                old(self).pos as int,
                old(self).last_opcode as nat,
                old(self).names@,
            ) is Some,
        ensures
            final(self).wf(),
            *final(self) == (Compiler {
                pos: final(self).pos,
                buffer: final(self).buffer,
                current_command: final(self).current_command,
                last_opcode: final(self).last_opcode,
                infra: final(self).infra,
                ..*old(self)
            }),
            r is Ok ==> old(self).pos < final(self).pos <= old(self).lines@.len(),
            final(self).buffer@.len() >= old(self).buffer@.len(),
            final(self).buffer@.subrange(0, old(self).buffer@.len() as int) == old(
                self,
            ).buffer@,
            modeled ==> r is Ok && ({
                let (bytes, next, new_last) = spec_pass2_step(
                    lines0,
                    old(self).pos as int,
                    old(self).last_opcode as nat,
                    old(self).names@,
                )->0;
                &&& final(self).buffer@ == old(self).buffer@ + bytes
                &&& final(self).pos == next
                &&& final(self).last_opcode == new_last
            }),
    {
        let n = self.lines.len();
        let ghost pos_c = self.pos as int;
        let ghost last_c = self.last_opcode as nat;
        let ghost names0 = self.names@;
        // the push abbreviation: after a push, a bare parameter line is
        // an implicit push of that parameter
        if self.last_opcode == 3 && !contains_str(string, str_robson()) {
            proof {
                if modeled {
                    lemma_pass2_step_implicit(lines0, pos_c, last_c, names0);
                    reveal(spec_kind_value_total);
                    assert(spec_trim(Seq::<char>::empty()) =~= Seq::<char>::empty());
                    assert(spec_kind_value_total(names0, Seq::<char>::empty()) == Some(
                        (TypedByte { value: 0, typ: Type::Usigned }, 0u8, 0u8, false),
                    ));
                }
            }
            let params: [String; 3] = [string.to_owned(), String::new(), String::new()];
            match self.push_command(3, params) {
                Ok(()) => {},
                Err(err) => {
                    proof {
                        if modeled {
                            assert(false);
                        }
                    }
                    return Err(err);
                },
            }
            proof {
                assert(self.pos < n);
            }
            self.pos += 1;
            proof {
                if modeled {
                    lemma_pass2_step_implicit(lines0, pos_c, last_c, names0);
                    let step = spec_pass2_step(lines0, pos_c, last_c, names0)->0;
                    assert(self.buffer@ =~= old(self).buffer@ + step.0);
                }
            }
            return Ok(());
        }
        // an opcode line: one keyword per opcode number
        let splited = split_char(string, ' ');
        let token_count = splited.len();
        proof {
            if modeled {
                lemma_pass2_step_opcode(lines0, pos_c, last_c, names0);
            }
        }
        let mut opcode: usize = 0;
        let mut i: usize = 0;
        #[verifier::loop_isolation(false)]
        while i < token_count
            invariant
                0 <= i <= token_count,
                opcode == i,
            decreases token_count - i,
        {
            if !str_eq(splited[i].as_str(), str_robson()) {
                proof {
                    if modeled {
                        assert(splited.deep_view()[i as int] == splited@[i as int]@);
                        assert(false);
                    }
                }
                let mut message = String::new();
                message.append("Invalid token for opcode in line ");
                let pn = usize_to_string(self.pos + 1);
                message.append(pn.as_str());
                message.append(", '");
                message.append(splited[i].as_str());
                message.append("'");
                return Err(IError::from_string(message));
            }
            opcode += 1;
            i += 1;
        }
        if opcode >= 17 {
            proof {
                if modeled {
                    assert(false);
                }
            }
            let mut message = String::new();
            message.append("invalid opcode of line ");
            let pn = usize_to_string(self.pos + 1);
            message.append(pn.as_str());
            return Err(IError::from_string(message));
        }
        let opcode = opcode as u8;
        let pc = param_count(opcode);
        let (param0, param1, param2) = match self.collect_params(
            pc,
            Ghost(lines0),
            Ghost(modeled),
        ) {
            Ok(p) => p,
            Err(err) => {
                proof {
                    if modeled {
                        assert(false);
                    }
                }
                return Err(err);
            },
        };
        proof {
            assert(self.pos < n);
        }
        self.pos += 1;
        match self.push_command(opcode, [param0, param1, param2]) {
            Ok(()) => {},
            Err(err) => {
                proof {
                    if modeled {
                        assert(false);
                    }
                }
                return Err(err);
            },
        }
        self.last_opcode = opcode;
        proof {
            if modeled {
                lemma_pass2_step_opcode(lines0, pos_c, last_c, names0);
                let step = spec_pass2_step(lines0, pos_c, last_c, names0)->0;
                assert(step.1 == pos_c + pc + 1);
                assert(self.buffer@ =~= old(self).buffer@ + step.0);
            }
        }
        Ok(())
    }

    /// Both passes of this unit: resolves aliases, then walks the lines
    /// again emitting one 15-byte record per instruction, splicing each
    /// include's compiled buffer in place and applying the push
    /// abbreviation. On success the returned buffer is a sequence of
    /// well-formed records, so its length is a multiple of 15.
    #[verifier::rlimit(100)]
    #[verifier::rlimit(100)]
    #[verifier::spinoff_prover]
    fn compile_inner(&mut self, fuel: usize) -> (r: Result<Vec<u8>, IError>)
        requires
            old(self).wf(),
        ensures
            final(self).wf(),
            r is Ok ==> r->Ok_0@ == final(self).buffer@,
            r is Ok ==> r->Ok_0@.len() % 15 == 0,
            r is Ok ==> spec_buffer_wf(r->Ok_0@),
            fuel >= 1 && spec_blank_unit(old(self).lines.deep_view()) ==> r is Ok
                && final(self).buffer@ == old(self).buffer@,
            ({
                let model = spec_pass2_from(old(self).lines.deep_view(), 0, 0,
                    final(self).names@);
                r is Ok && old(self).pos == 0 && old(self).last_opcode == 0 && model is Some
                    ==> final(self).buffer@ == old(self).buffer@ + model->0
            }),
            ({
                let lines = old(self).lines.deep_view();
                fuel >= 1 && old(self).pos == 0 && old(self).last_opcode == 0 && old(
                    self,
                ).names@.len() == 0 && spec_no_includes(lines) && old(self).offset + old(
                    self,
                ).lines@.len() <= usize::MAX && spec_pass1_names(lines, old(self).offset as nat,
                    Seq::empty()) is Some && spec_pass2_from(lines, 0, 0, final(self).names@)
                    is Some ==> r is Ok
            }),
            ({
                let lines = old(self).lines.deep_view();
                fuel >= 1 && old(self).names@.len() == 0 && spec_no_includes(lines)
                    && spec_pass1_names(lines, old(self).offset as nat, Seq::empty()) is None
                    ==> r is Err
            }),
            spec_table_extends(final(self).files@, old(self).files@),
        decreases fuel, 2int,
    {
        if fuel == 0 {
            return Err(IError::message("Creating infinite compilation"));
        }
        match self.start_alias_inner(fuel) {
            Some(err) => {
                return Err(err);
            },
            None => {},
        }
        let n = self.lines.len();
        let ghost base = *self;
        let ghost lines0 = old(self).lines.deep_view();
        let ghost names0 = self.names@;
        let ghost modeled = old(self).pos == 0 && old(self).last_opcode == 0 && spec_pass2_from(
            lines0,
            0,
            0,
            names0,
        ) is Some;
        proof {
            if modeled {
                assert(self.buffer@.skip(old(self).buffer@.len() as int) =~= Seq::<u8>::empty());
                assert(spec_pass2_from(lines0, 0, 0, names0)->0 =~= Seq::<u8>::empty()
                    + spec_pass2_from(lines0, self.pos as int, self.last_opcode as nat,
                    names0)->0);
            }
        }
        while self.pos < n
            invariant
                n == self.lines@.len(),
                self.wf(),
                fuel >= 1,
                old(self).lines == self.lines,
                lines0 == old(self).lines.deep_view(),
                names0 == self.names@,
                spec_table_extends(self.files@, old(self).files@),
                spec_blank_unit(old(self).lines.deep_view()) ==> self.buffer@ == old(
                    self,
                ).buffer@,
                modeled == (old(self).pos == 0 && old(self).last_opcode == 0 && spec_pass2_from(
                    lines0,
                    0,
                    0,
                    names0,
                ) is Some),
                modeled ==> {
                    &&& self.pos <= n
                    &&& spec_pass2_from(lines0, self.pos as int, self.last_opcode as nat, names0)
                        is Some
                    &&& self.buffer@.len() >= old(self).buffer@.len()
                    &&& self.buffer@.subrange(0, old(self).buffer@.len() as int) == old(
                        self,
                    ).buffer@
                    &&& spec_pass2_from(lines0, 0, 0, names0)->0 == self.buffer@.skip(
                        old(self).buffer@.len() as int,
                    ) + spec_pass2_from(lines0, self.pos as int, self.last_opcode as nat,
                        names0)->0
                },
            decreases n - self.pos,
        {
            let ghost pos_c = self.pos as int;
            let ghost last_c = self.last_opcode as nat;
            let ghost emitted = self.buffer@.skip(old(self).buffer@.len() as int);
            let pre_string = self.lines[self.pos].clone();
            let string = Self::remove_comments(pre_string.as_str());
            proof {
                assert(pre_string@ == lines0[pos_c]);
            }

            // skip aliases
            if ends_with_char(string, ':') {
                proof {
                    reveal(spec_pass2_step);
                    reveal(spec_pass2_from);
                    if modeled {
                        assert(spec_pass2_step(lines0, pos_c, last_c, names0) == Some(
                            (Seq::<u8>::empty(), pos_c + 1, last_c),
                        ));
                        assert(emitted + Seq::<u8>::empty() =~= emitted);
                    }
                }
                self.pos += 1;
                continue;
            }
            // skip blank lines
            if string.unicode_len() == 0 {
                proof {
                    reveal(spec_pass2_step);
                    reveal(spec_pass2_from);
                    if modeled {
                        assert(spec_pass2_step(lines0, pos_c, last_c, names0) == Some(
                            (Seq::<u8>::empty(), pos_c + 1, last_c),
                        ));
                        assert(emitted + Seq::<u8>::empty() =~= emitted);
                    }
                }
                self.pos += 1;
                continue;
            }
            proof {
                reveal(spec_blank_unit);
                if spec_blank_unit(old(self).lines.deep_view()) {
                    assert(spec_trim(
                        spec_split(old(self).lines.deep_view()[self.pos as int], ';')[0],
                    ).len() == 0);
                    assert(old(self).lines.deep_view()[self.pos as int]
                        == self.lines@[self.pos as int]@);
                    assert(string@.len() == 0);
                }
            }
            // include another unit's compiled buffer in place; the
            // emission model stops here, since the included bytes come
            // from another unit
            if contains_str(string, str_robsons()) {
                proof {
                    reveal(spec_pass2_step);
                    reveal(spec_pass2_from);
                    if modeled {
                        assert(spec_pass2_step(lines0, pos_c, last_c, names0) is None);
                        assert(false);
                    }
                }
                match self.compile_include(string, fuel) {
                    Ok(()) => {},
                    Err(err) => {
                        return Err(err);
                    },
                }
                self.last_opcode = 0;
                self.pos += 1;
                continue;
            }
            // a parameter or opcode line: one emitted instruction
            proof {
                reveal(spec_pass2_step);
                reveal(spec_pass2_from);
                if modeled {
                    assert(spec_pass2_step(lines0, pos_c, last_c, names0) is Some);
                }
            }
            match self.compile_statement(string, Ghost(lines0), Ghost(modeled)) {
                Ok(()) => {},
                Err(err) => {
                    return Err(err);
                },
            }
            proof {
                reveal(spec_pass2_from);
                if modeled {
                    let step = spec_pass2_step(lines0, pos_c, last_c, names0)->0;
                    assert(self.buffer@.skip(old(self).buffer@.len() as int) =~= emitted
                        + step.0);
                    assert(self.buffer@.subrange(0, old(self).buffer@.len() as int) =~= old(
                        self,
                    ).buffer@);
                    assert(spec_pass2_from(lines0, 0, 0, names0)->0 =~= (emitted + step.0)
                        + spec_pass2_from(lines0, self.pos as int, self.last_opcode as nat,
                        names0)->0);
                }
            }
        }
        proof {
            reveal(spec_pass2_from);
            if modeled {
                assert(spec_pass2_from(lines0, self.pos as int, self.last_opcode as nat, names0)
                    == Some(Seq::<u8>::empty()));
                assert(spec_pass2_from(lines0, 0, 0, names0)->0 =~= self.buffer@.skip(
                    old(self).buffer@.len() as int,
                ));
                assert(self.buffer@ =~= old(self).buffer@ + spec_pass2_from(lines0, 0, 0,
                    names0)->0);
            }
        }
        Ok(vstd::slice::slice_to_vec(self.buffer.as_slice()))
    }

    /// Compiles this unit: both passes, includes resolved through the
    /// source tree. On success the buffer's length is a multiple of 15.
    pub fn compile(&mut self) -> (r: Result<Vec<u8>, IError>)
        requires
            old(self).wf(),
        ensures
            final(self).wf(),
            r is Ok ==> r->Ok_0@ == final(self).buffer@,
            r is Ok ==> r->Ok_0@.len() % 15 == 0,
            r is Ok ==> r->Ok_0@.len() == 15 * final(self).current_command,
            r is Ok ==> spec_buffer_wf(r->Ok_0@),
            spec_blank_unit(old(self).lines.deep_view()) ==> r is Ok && final(self).buffer@
                == old(self).buffer@,
            ({
                let model = spec_pass2_from(old(self).lines.deep_view(), 0, 0,
                    final(self).names@);
                r is Ok && old(self).pos == 0 && old(self).last_opcode == 0 && model is Some
                    ==> final(self).buffer@ == old(self).buffer@ + model->0
            }),
            ({
                let lines = old(self).lines.deep_view();
                old(self).pos == 0 && old(self).last_opcode == 0 && old(self).names@.len() == 0
                    && spec_no_includes(lines) && old(self).offset + old(self).lines@.len()
                    <= usize::MAX && spec_pass1_names(lines, old(self).offset as nat,
                    Seq::empty()) is Some && spec_pass2_from(lines, 0, 0, final(self).names@)
                    is Some ==> r is Ok
            }),
            ({
                let lines = old(self).lines.deep_view();
                old(self).names@.len() == 0 && spec_no_includes(lines) && spec_pass1_names(
                    lines,
                    old(self).offset as nat,
                    Seq::empty(),
                ) is None ==> r is Err
            }),
    {
        let len = self.sources.files.len();
        let fuel = if len >= usize::MAX - 2 {
            usize::MAX
        } else {
            len + 2
        };
        self.compile_inner(fuel)
    }

    /// Runs the first pass alone, filling the alias table: on success,
    /// starting from an empty table, the table is exactly what the
    /// specification's first pass builds over this unit's lines, for the
    /// include sizes its directives resolved to.
    pub fn start_command_alias(&mut self) -> (r: Option<IError>)
        ensures
            *final(self) == (Compiler {
                names: final(self).names,
                files: final(self).files,
                infra: final(self).infra,
                ..*old(self)
            }),
            spec_names_distinct(old(self).names@) ==> spec_names_distinct(final(self).names@),
            old(self).names@.len() == 0 && r is None ==> exists|sizes: Seq<nat>|
                spec_pass1_names(old(self).lines.deep_view(), old(self).offset as nat, sizes)
                    == Some(spec_names_deep(final(self).names@)),
            old(self).names@.len() == 0 && spec_no_includes(old(self).lines.deep_view())
                && old(self).offset + old(self).lines@.len() <= usize::MAX
                && spec_pass1_names(old(self).lines.deep_view(), old(self).offset as nat,
                Seq::empty()) is Some ==> r is None,
            old(self).names@.len() == 0 && spec_no_includes(old(self).lines.deep_view())
                && spec_pass1_names(old(self).lines.deep_view(), old(self).offset as nat,
                Seq::empty()) is None ==> r is Some,
    {
        let len = self.sources.files.len();
        let fuel = if len >= usize::MAX - 2 {
            usize::MAX
        } else {
            len + 2
        };
        self.start_alias_inner(fuel)
    }

    /// The size in commands of the unit at `path`, from the cache or by a
    /// preload compilation.
    pub fn get_cached_robsons_size(&mut self, path: &str, command_number: usize) -> (r: Result<
        usize,
        IError,
    >)
        ensures
            *final(self) == (Compiler {
                files: final(self).files,
                infra: final(self).infra,
                ..*old(self)
            }),
            spec_table_get(old(self).files@, path@) is Some ==> r == Ok::<usize, IError>(
                spec_table_get(old(self).files@, path@)->0,
            ) && final(self).files@ == old(self).files@,
            spec_table_extends(final(self).files@, old(self).files@),
            r is Ok ==> spec_table_get(final(self).files@, path@) == Some(r->Ok_0),
    {
        let len = self.sources.files.len();
        let fuel = if len >= usize::MAX - 2 {
            usize::MAX
        } else {
            len + 2
        };
        self.get_cached_inner(path, command_number, fuel)
    }
}

/// The include target a line names, if it is an include directive: the
/// line, stripped of its comment and trimmed, must not be an alias, must
/// start with the include keyword, and must split into exactly the
/// keyword and one path.
pub open spec fn spec_include_path_of(line: Seq<char>) -> Option<Seq<char>> {
    let s = spec_trim(spec_split(line, ';')[0]);
    if s.len() > 0 && s.last() != ':' && crate::text::spec_starts_with(s, kw_robsons())
        && spec_split(s, ' ').len() == 2 {
        Some(spec_split(s, ' ')[1])
    } else {
        None
    }
}

/// The include targets of a unit's lines, in order.
pub open spec fn spec_include_paths(lines: Seq<Seq<char>>) -> Seq<Seq<char>>
    decreases lines.len(),
{
    if lines.len() == 0 {
        Seq::<Seq<char>>::empty()
    } else {
        let rest = spec_include_paths(lines.drop_last());
        match spec_include_path_of(lines.last()) {
            Some(p) => rest.push(p),
            None => rest,
        }
    }
}

/// Lists the paths that a unit's include directives name, in order, so a
/// caller can gather the whole source tree before compiling.
pub fn include_paths(lines: &Vec<String>) -> (r: Vec<String>)
    ensures
        r.deep_view() == spec_include_paths(lines.deep_view()),
{
    let mut out: Vec<String> = Vec::new();
    let n = lines.len();
    proof {
        assert(lines.deep_view().subrange(0, 0) =~= Seq::<Seq<char>>::empty());
    }
    let mut i: usize = 0;
    while i < n
        invariant
            0 <= i <= n,
            n == lines@.len(),
            out.deep_view() == spec_include_paths(lines.deep_view().subrange(0, i as int)),
        decreases n - i,
    {
        let ghost prefix = lines.deep_view().subrange(0, i as int);
        let ghost next = lines.deep_view().subrange(0, i + 1);
        proof {
            assert(next.drop_last() =~= prefix);
            assert(next.last() == lines.deep_view()[i as int]);
            assert(lines.deep_view()[i as int] == lines@[i as int]@);
        }
        let string = strip_comment(lines[i].as_str());
        let is_include = string.unicode_len() > 0 && !ends_with_char(string, ':')
            && starts_with(string, str_robsons());
        if is_include {
            let splited = split_char(string, ' ');
            if splited.len() == 2 {
                let ghost prev = out.deep_view();
                out.push(splited[1].clone());
                proof {
                    assert(out.deep_view() =~= prev.push(splited@[1]@));
                }
            }
        }
        i += 1;
    }
    proof {
        assert(lines.deep_view().subrange(0, n as int) =~= lines.deep_view());
    }
    out
}

/// The alias table of the first pass, over character sequences.
pub open spec fn spec_names_lookup(names: Seq<(Seq<char>, nat)>, key: Seq<char>) -> Option<nat>
    decreases names.len(),
{
    if names.len() == 0 {
        None
    } else if names.last().0 == key {
        Some(names.last().1)
    } else {
        spec_names_lookup(names.drop_last(), key)
    }
}

/// The alias table as the mathematical object it stands for.
pub open spec fn spec_names_deep(entries: Seq<(String, usize)>) -> Seq<(Seq<char>, nat)> {
    entries.map_values(|e: (String, usize)| (e.0@, e.1 as nat))
}

proof fn lemma_names_deep_lookup(entries: Seq<(String, usize)>, key: Seq<char>)
    ensures
        spec_names_lookup(spec_names_deep(entries), key) is Some <==> spec_table_get(entries, key)
            is Some,
        spec_table_get(entries, key) is Some ==> spec_names_lookup(spec_names_deep(entries), key)
            == Some(spec_table_get(entries, key)->0 as nat),
    decreases entries.len(),
{
    let deep = spec_names_deep(entries);
    if entries.len() > 0 {
        assert(deep.last() == (entries.last().0@, entries.last().1 as nat));
        assert(spec_names_deep(entries.drop_last()) =~= deep.drop_last());
        lemma_names_deep_lookup(entries.drop_last(), key);
    } else {
        assert(deep.len() == 0);
    }
}

/// The running state of the first pass: the global ordinal of the next
/// instruction, the last opcode line seen (its opcode count and line
/// index), the alias table so far, and how many include sizes have been
/// consumed.
pub struct Pass1 {
    pub command_number: nat,
    pub last_value: nat,
    pub last_pos: nat,
    pub names: Seq<(Seq<char>, nat)>,
    pub used: nat,
}

/// What one line does to the first pass, as the specification gives it:
/// a blank line is skipped; a line ending in a colon records an alias at
/// the current command number plus the unit's offset, refusing a
/// duplicate; an include directive advances the command number by the
/// included unit's size (the next entry of `sizes`); an opcode line
/// counts one command and becomes the last opcode seen; any other line
/// counts one command exactly when the last opcode line was a push and
/// does not sit directly under it.
pub open spec fn spec_pass1_step(
    st: Pass1,
    line: Seq<char>,
    pos: nat,
    offset: nat,
    sizes: Seq<nat>,
) -> Option<Pass1> {
    let s = spec_trim(spec_split(line, ';')[0]);
    if s.len() == 0 {
        Some(st)
    } else if s.last() == ':' {
        let name = spec_remove_char(s, ':');
        if spec_names_lookup(st.names, name) is Some {
            None
        } else {
            Some(
                Pass1 {
                    names: st.names.push((name, (st.command_number + offset) as nat)),
                    ..st
                },
            )
        }
    } else if crate::text::spec_starts_with(s, kw_robsons()) {
        if spec_split(s, ' ').len() != 2 {
            None
        } else if st.used >= sizes.len() {
            None
        } else {
            Some(
                Pass1 {
                    command_number: (st.command_number + sizes[st.used as int]) as nat,
                    used: (st.used + 1) as nat,
                    ..st
                },
            )
        }
    } else if crate::text::spec_starts_with(s, kw_robson()) {
        let tokens = spec_split(s, ' ');
        if forall|j: int| 0 <= j < tokens.len() ==> tokens[j] == kw_robson() {
            Some(
                Pass1 {
                    command_number: (st.command_number + 1) as nat,
                    last_value: tokens.len(),
                    last_pos: pos,
                    ..st
                },
            )
        } else {
            None
        }
    } else if st.last_value == 3 && st.last_pos + 1 != pos {
        Some(Pass1 { command_number: (st.command_number + 1) as nat, ..st })
    } else {
        Some(st)
    }
}

/// The first pass over the first `pos` lines, starting from `init`.
pub open spec fn spec_pass1_upto(
    lines: Seq<Seq<char>>,
    pos: int,
    init: Pass1,
    offset: nat,
    sizes: Seq<nat>,
) -> Option<Pass1>
    decreases pos,
{
    if pos <= 0 {
        Some(init)
    } else {
        match spec_pass1_upto(lines, pos - 1, init, offset, sizes) {
            None => None,
            Some(st) => spec_pass1_step(st, lines[pos - 1], (pos - 1) as nat, offset, sizes),
        }
    }
}

/// The alias table the first pass of a whole unit builds, starting from
/// an empty table, with `sizes` the sizes of its includes in order.
pub open spec fn spec_pass1_names(
    lines: Seq<Seq<char>>,
    offset: nat,
    sizes: Seq<nat>,
) -> Option<Seq<(Seq<char>, nat)>> {
    let init = Pass1 {
        command_number: 0,
        last_value: 0,
        last_pos: 0,
        names: Seq::empty(),
        used: 0,
    };
    match spec_pass1_upto(lines, lines.len() as int, init, offset, sizes) {
        None => None,
        Some(st) => Some(st.names),
    }
}

proof fn lemma_pass1_used_bounded(
    lines: Seq<Seq<char>>,
    pos: int,
    init: Pass1,
    offset: nat,
    sizes: Seq<nat>,
)
    requires
        init.used <= sizes.len(),
        spec_pass1_upto(lines, pos, init, offset, sizes) is Some,
    ensures
        spec_pass1_upto(lines, pos, init, offset, sizes)->0.used <= sizes.len(),
    decreases pos,
{
    if pos > 0 {
        lemma_pass1_used_bounded(lines, pos - 1, init, offset, sizes);
    }
}

proof fn lemma_pass1_prefix_some(
    lines: Seq<Seq<char>>,
    p: int,
    q: int,
    init: Pass1,
    offset: nat,
    sizes: Seq<nat>,
)
    requires
        0 <= p <= q,
        spec_pass1_upto(lines, q, init, offset, sizes) is Some,
    ensures
        spec_pass1_upto(lines, p, init, offset, sizes) is Some,
    decreases q,
{
    if p < q {
        lemma_pass1_prefix_some(lines, p, q - 1, init, offset, sizes);
    }
}

proof fn lemma_pass1_sizes_extend(
    lines: Seq<Seq<char>>,
    pos: int,
    init: Pass1,
    offset: nat,
    sizes: Seq<nat>,
    extra: nat,
)
    requires
        init.used <= sizes.len(),
        spec_pass1_upto(lines, pos, init, offset, sizes) is Some,
    ensures
        spec_pass1_upto(lines, pos, init, offset, sizes.push(extra)) == spec_pass1_upto(
            lines,
            pos,
            init,
            offset,
            sizes,
        ),
    decreases pos,
{
    if pos > 0 {
        lemma_pass1_sizes_extend(lines, pos - 1, init, offset, sizes, extra);
        lemma_pass1_used_bounded(lines, pos - 1, init, offset, sizes);
        let st = spec_pass1_upto(lines, pos - 1, init, offset, sizes)->0;
        assert(st.used < sizes.len() ==> sizes.push(extra)[st.used as int] == sizes[st.used as int]);
    }
}

#[verifier::rlimit(100)]
#[verifier::spinoff_prover]
proof fn lemma_remove_char_of_reference(name: Seq<char>, c: char)
    requires
        forall|i: int| 0 <= i < name.len() ==> #[trigger] name[i] != c,
    ensures
        spec_remove_char(seq![c] + name, c) == name,
    decreases name.len(),
{
    let arg = seq![c] + name;
    if name.len() == 0 {
        assert(spec_remove_char(arg, c) == name) by {
            reveal_with_fuel(Seq::filter, 3);
            assert(arg.drop_last() =~= Seq::<char>::empty());
            assert(arg.last() == c);
            assert(spec_remove_char(arg, c) =~= Seq::<char>::empty());
            assert(name =~= Seq::<char>::empty());
        }
    } else {
        lemma_remove_char_of_reference(name.drop_last(), c);
        assert(spec_remove_char(arg, c) == name) by {
            reveal_with_fuel(Seq::filter, 2);
            assert(arg.drop_last() =~= seq![c] + name.drop_last());
            assert(arg.last() == name.last());
            assert(name[name.len() - 1] != c);
            assert(spec_remove_char(arg, c) =~= name);
        }
    }
}

/// Every alias reference resolves to the command index recorded for the
/// alias. If the alias table binds `name` to `k` — as the first pass does
/// at the command index, plus offset, of the instruction following the
/// alias line — then the name carried by the `lambeu` argument `:name` is
/// exactly `name`, and parameter resolution looks up and emits `k` as the
/// unsigned immediate. The alias name is assumed free of colons and
/// blank space, as written alias names are.
pub proof fn lemma_alias_reference_resolves(
    names: Seq<(String, usize)>,
    name: Seq<char>,
    k: usize,
)
    requires
        spec_table_get(names, name) == Some(k),
        forall|i: int| 0 <= i < name.len() ==> name[i] != ':' && !crate::text::spec_is_space(
            #[trigger] name[i],
        ),
    ensures
        spec_remove_char(spec_trim(seq![':'] + name), ':') == name,
        spec_table_get(names, spec_remove_char(spec_trim(seq![':'] + name), ':')) == Some(k),
{
    let arg = seq![':'] + name;
    assert(arg[0] == ':');
    assert(!crate::text::spec_is_space(arg[0]));
    assert(crate::text::spec_trim_front(arg) == arg);
    if name.len() > 0 {
        assert(arg.last() == name[name.len() - 1]);
        assert(!crate::text::spec_is_space(arg.last()));
    } else {
        assert(arg.last() == ':');
    }
    assert(crate::text::spec_trim_back(arg) == arg);
    assert(spec_trim(arg) == arg);
    lemma_remove_char_of_reference(name, ':');
}

/// Parameter resolution as a function, where the host plays no part: the
/// value, mode code, type code and convert flag that a parameter line
/// yields. Floating literals are left out (`None`), since their bits come
/// from the host's parser.
#[verifier::opaque]
pub open spec fn spec_kind_value_total(
    names: Seq<(String, usize)>,
    parameter: Seq<char>,
) -> Option<(TypedByte, u8, u8, bool)> {
    if parameter.len() == 0 {
        Some((TypedByte { value: 0, typ: Type::Usigned }, 0u8, 0u8, false))
    } else {
        let pieces = spec_split(parameter, ' ');
        let convert = pieces.len() == 3 && pieces[2] == kw_robson();
        if pieces.len() < 2 {
            None
        } else if pieces.len() == 3 && pieces[2] != kw_robson() {
            None
        } else {
            let arg = spec_trim(pieces[1]);
            if pieces[0] == kw_comeu() {
                if arg.len() == 0 {
                    None
                } else if arg[0] == 'f' {
                    None
                } else if arg[0] == 'i' {
                    let lit = spec_remove_char(arg, 'i');
                    if spec_i32_literal_ok(lit) {
                        Some(
                            (
                                TypedByte {
                                    value: spec_i32_bits(spec_i32_literal_value(lit) as i32),
                                    typ: Type::Signed,
                                },
                                0u8,
                                1u8,
                                convert,
                            ),
                        )
                    } else {
                        None
                    }
                } else {
                    if spec_u32_literal_ok(arg) {
                        Some(
                            (
                                TypedByte { value: spec_u32_literal_value(arg) as u32, typ: Type::Usigned },
                                0u8,
                                0u8,
                                convert,
                            ),
                        )
                    } else {
                        None
                    }
                }
            } else if pieces[0] == kw_chupou() {
                if spec_u32_literal_ok(pieces[1]) {
                    Some(
                        (
                            TypedByte {
                                value: spec_u32_literal_value(pieces[1]) as u32,
                                typ: Type::Usigned,
                            },
                            1u8,
                            0u8,
                            convert,
                        ),
                    )
                } else {
                    None
                }
            } else if pieces[0] == kw_fudeu() {
                if spec_u32_literal_ok(arg) {
                    Some(
                        (
                            TypedByte { value: spec_u32_literal_value(arg) as u32, typ: Type::Usigned },
                            2u8,
                            0u8,
                            convert,
                        ),
                    )
                } else {
                    None
                }
            } else if pieces[0] == kw_lambeu() {
                if arg.len() == 0 {
                    None
                } else if arg[0] != ':' {
                    None
                } else {
                    let name = spec_remove_char(arg, ':');
                    match spec_table_get(names, name) {
                        Some(k) => Some(
                            (
                                TypedByte {
                                    value: (k as int % 0x1_0000_0000int) as u32,
                                    typ: Type::Usigned,
                                },
                                0u8,
                                0u8,
                                convert,
                            ),
                        ),
                        None => None,
                    }
                }
            } else if pieces[0] == kw_penetrou() {
                if spec_u32_literal_ok(arg) {
                    Some(
                        (
                            TypedByte { value: spec_u32_literal_value(arg) as u32, typ: Type::Usigned },
                            3u8,
                            0u8,
                            convert,
                        ),
                    )
                } else {
                    None
                }
            } else {
                None
            }
        }
    }
}

/// The parameter line that an instruction's `j`-th parameter reads:
/// trimmed, or empty where the opcode takes fewer parameters.
pub open spec fn spec_param_at(lines: Seq<Seq<char>>, pos: int, j: int, pc: int) -> Seq<char> {
    if j <= pc {
        spec_trim(lines[pos + j])
    } else {
        Seq::<char>::empty()
    }
}

/// One step of the second pass, as a function: from line `pos`, with
/// `last` the opcode of the last opcode line seen, yields the bytes
/// emitted, the next line position, and the new last opcode. It is
/// `None` where the pass fails, and also where something outside this
/// model takes part: include directives (their buffers come from other
/// units) and floating literals (their bits come from the host).
#[verifier::opaque]
pub open spec fn spec_pass2_step(
    lines: Seq<Seq<char>>,
    pos: int,
    last: nat,
    names: Seq<(String, usize)>,
) -> Option<(Seq<u8>, int, nat)> {
    let s = spec_trim(spec_split(lines[pos], ';')[0]);
    if s.len() > 0 && s.last() == ':' {
        Some((Seq::<u8>::empty(), pos + 1, last))
    } else if s.len() == 0 {
        Some((Seq::<u8>::empty(), pos + 1, last))
    } else if spec_contains_str(s, kw_robsons()) {
        None
    } else if last == 3 && !spec_contains_str(s, kw_robson()) {
        match spec_kind_value_total(names, spec_trim(s)) {
            Some(t) => {
                let (v, m, ty, c) = t;
                let zero = Param {
                    value: TypedByte { value: 0, typ: Type::Usigned },
                    mode: 0,
                    convert: false,
                };
                Some(
                    (
                        spec_encode(
                            Command {
                                opcode: 3,
                                param1: Param { value: v, mode: m as usize, convert: c },
                                param2: zero,
                                param3: zero,
                            },
                        ),
                        pos + 1,
                        last,
                    ),
                )
            },
            None => None,
        }
    } else {
        let tokens = spec_split(s, ' ');
        if !(forall|j: int| 0 <= j < tokens.len() ==> tokens[j] == kw_robson()) {
            None
        } else if tokens.len() > 16 {
            None
        } else {
            let op = tokens.len() as int;
            let pc = spec_param_count(op as u8) as int;
            if pos + pc >= lines.len() {
                None
            } else if exists|j: int|
                1 <= j <= pc && spec_trim(#[trigger] lines[pos + j]).len() < 2 {
                None
            } else {
                let t1 = spec_kind_value_total(names, spec_param_at(lines, pos, 1, pc));
                let t2 = spec_kind_value_total(names, spec_param_at(lines, pos, 2, pc));
                let t3 = spec_kind_value_total(names, spec_param_at(lines, pos, 3, pc));
                if t1 is Some && t2 is Some && t3 is Some {
                    let (v1, m1, ty1, c1) = t1->0;
                    let (v2, m2, ty2, c2) = t2->0;
                    let (v3, m3, ty3, c3) = t3->0;
                    Some(
                        (
                            spec_encode(
                                Command {
                                    opcode: op as u8,
                                    param1: Param { value: v1, mode: m1 as usize, convert: c1 },
                                    param2: Param { value: v2, mode: m2 as usize, convert: c2 },
                                    param3: Param { value: v3, mode: m3 as usize, convert: c3 },
                                },
                            ),
                            pos + pc + 1,
                            op as nat,
                        ),
                    )
                } else {
                    None
                }
            }
        }
    }
}

proof fn lemma_pass2_step_advances(
    lines: Seq<Seq<char>>,
    pos: int,
    last: nat,
    names: Seq<(String, usize)>,
)
    requires
        0 <= pos < lines.len(),
        spec_pass2_step(lines, pos, last, names) is Some,
    ensures
        ({
            let (bytes, next, new_last) = spec_pass2_step(lines, pos, last, names)->0;
            pos < next <= lines.len()
        }),
{
    reveal(spec_pass2_step);
}

proof fn lemma_pass2_step_implicit(
    lines: Seq<Seq<char>>,
    pos: int,
    last: nat,
    names: Seq<(String, usize)>,
)
    requires
        0 <= pos < lines.len(),
        spec_pass2_step(lines, pos, last, names) is Some,
        ({
            let s = spec_trim(spec_split(lines[pos], ';')[0]);
            s.len() > 0 && s.last() != ':' && !spec_contains_str(s, kw_robsons()) && last == 3
                && !spec_contains_str(s, kw_robson())
        }),
    ensures
        ({
            let s = spec_trim(spec_split(lines[pos], ';')[0]);
            let t = spec_kind_value_total(names, spec_trim(s));
            &&& t is Some
            &&& {
                let (v, m, ty, c) = t->0;
                let zero = Param {
                    value: TypedByte { value: 0, typ: Type::Usigned },
                    mode: 0,
                    convert: false,
                };
                spec_pass2_step(lines, pos, last, names) == Some(
                    (
                        spec_encode(
                            Command {
                                opcode: 3,
                                param1: Param { value: v, mode: m as usize, convert: c },
                                param2: zero,
                                param3: zero,
                            },
                        ),
                        pos + 1,
                        last,
                    ),
                )
            }
        }),
{
    reveal(spec_pass2_step);
}

proof fn lemma_pass2_step_opcode(
    lines: Seq<Seq<char>>,
    pos: int,
    last: nat,
    names: Seq<(String, usize)>,
)
    requires
        0 <= pos < lines.len(),
        spec_pass2_step(lines, pos, last, names) is Some,
        ({
            let s = spec_trim(spec_split(lines[pos], ';')[0]);
            s.len() > 0 && s.last() != ':' && !spec_contains_str(s, kw_robsons()) && !(last == 3
                && !spec_contains_str(s, kw_robson()))
        }),
    ensures
        ({
            let s = spec_trim(spec_split(lines[pos], ';')[0]);
            let tokens = spec_split(s, ' ');
            let pc = spec_param_count(tokens.len() as u8) as int;
            let t1 = spec_kind_value_total(names, spec_param_at(lines, pos, 1, pc));
            let t2 = spec_kind_value_total(names, spec_param_at(lines, pos, 2, pc));
            let t3 = spec_kind_value_total(names, spec_param_at(lines, pos, 3, pc));
            &&& forall|j: int| 0 <= j < tokens.len() ==> #[trigger] tokens[j] == kw_robson()
            &&& tokens.len() <= 16
            &&& pos + pc < lines.len()
            &&& forall|j: int| 1 <= j <= pc ==> spec_trim(#[trigger] lines[pos + j]).len() >= 2
            &&& t1 is Some
            &&& t2 is Some
            &&& t3 is Some
            &&& {
                let (v1, m1, ty1, c1) = t1->0;
                let (v2, m2, ty2, c2) = t2->0;
                let (v3, m3, ty3, c3) = t3->0;
                spec_pass2_step(lines, pos, last, names) == Some(
                    (
                        spec_encode(
                            Command {
                                opcode: tokens.len() as u8,
                                param1: Param { value: v1, mode: m1 as usize, convert: c1 },
                                param2: Param { value: v2, mode: m2 as usize, convert: c2 },
                                param3: Param { value: v3, mode: m3 as usize, convert: c3 },
                            },
                        ),
                        pos + pc + 1,
                        tokens.len() as nat,
                    ),
                )
            }
        }),
{
    reveal(spec_pass2_step);
}

/// The bytes the second pass emits from line `pos` to the end of the
/// unit, or `None` where it fails or leaves this model (see
/// `spec_pass2_step`).
#[verifier::opaque]
pub open spec fn spec_pass2_from(
    lines: Seq<Seq<char>>,
    pos: int,
    last: nat,
    names: Seq<(String, usize)>,
) -> Option<Seq<u8>>
    decreases lines.len() - pos,
    when 0 <= pos
    via spec_pass2_from_decreases
{
    if pos >= lines.len() {
        Some(Seq::<u8>::empty())
    } else {
        match spec_pass2_step(lines, pos, last, names) {
            None => None,
            Some(step) => {
                let (bytes, next, new_last) = step;
                match spec_pass2_from(lines, next, new_last, names) {
                    None => None,
                    Some(rest) => Some(bytes + rest),
                }
            },
        }
    }
}

#[via_fn]
proof fn spec_pass2_from_decreases(
    lines: Seq<Seq<char>>,
    pos: int,
    last: nat,
    names: Seq<(String, usize)>,
) {
    reveal(spec_pass2_from);
    if pos < lines.len() {
        if spec_pass2_step(lines, pos, last, names) is Some {
            lemma_pass2_step_advances(lines, pos, last, names);
        }
    }
}

/// A unit with no include directive among its lines.
pub open spec fn spec_no_includes(lines: Seq<Seq<char>>) -> bool {
    forall|i: int| 0 <= i < lines.len() ==> {
        let s = spec_trim(#[trigger] spec_split(lines[i], ';')[0]);
        !(s.len() > 0 && s.last() != ':' && crate::text::spec_starts_with(s, kw_robsons()))
    }
}

proof fn lemma_pass1_no_includes(
    lines: Seq<Seq<char>>,
    pos: int,
    init: Pass1,
    offset: nat,
    sizes1: Seq<nat>,
    sizes2: Seq<nat>,
)
    requires
        spec_no_includes(lines),
        0 <= pos <= lines.len(),
    ensures
        spec_pass1_upto(lines, pos, init, offset, sizes1) == spec_pass1_upto(
            lines,
            pos,
            init,
            offset,
            sizes2,
        ),
    decreases pos,
{
    if pos > 0 {
        lemma_pass1_no_includes(lines, pos - 1, init, offset, sizes1, sizes2);
        let s = spec_trim(spec_split(lines[pos - 1], ';')[0]);
        assert(!(s.len() > 0 && s.last() != ':' && crate::text::spec_starts_with(
            s,
            kw_robsons(),
        )));
    }
}

/// The alias table of a unit without includes is a function of its lines
/// and offset alone: the first pass never consults the compiled-size
/// cache, so nothing outside the unit can change what it records.
pub proof fn lemma_alias_table_deterministic(
    lines: Seq<Seq<char>>,
    offset: nat,
    sizes1: Seq<nat>,
    sizes2: Seq<nat>,
)
    requires
        spec_no_includes(lines),
    ensures
        spec_pass1_names(lines, offset, sizes1) == spec_pass1_names(lines, offset, sizes2),
{
    let init = Pass1 {
        command_number: 0,
        last_value: 0,
        last_pos: 0,
        names: Seq::empty(),
        used: 0,
    };
    lemma_pass1_no_includes(lines, lines.len() as int, init, offset, sizes1, sizes2);
}

/// Idempotence of compilation, where the emission model applies: the
/// bytes a unit compiles to are a function of its lines and its alias
/// table alone, so compiling the same source twice yields the same
/// buffer. The model covers units without include directives and without
/// floating literals; an included unit's bytes and a float literal's
/// bits come from outside it.
pub proof fn lemma_compilation_idempotent(
    lines: Seq<Seq<char>>,
    names: Seq<(String, usize)>,
    buffer1: Seq<u8>,
    buffer2: Seq<u8>,
)
    requires
        spec_pass2_from(lines, 0, 0, names) == Some(buffer1),
        spec_pass2_from(lines, 0, 0, names) == Some(buffer2),
    ensures
        buffer1 == buffer2,
{
}

} // verus!
