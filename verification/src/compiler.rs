//! A simple AST representation of a bpftrace program which makes it easier to
//! generate. Compiles to bpftrace syntax, i.e. `String`; the compiled text is
//! pinned down exactly by spec functions over a ghost mirror of the AST.
use vstd::prelude::*;

use crate::program::FunctionName;
use crate::strutil;

verus! {

/// Ghost mirror of `Expression`.
pub enum SExpr {
    Raw(Seq<char>),
    If(Seq<char>, Seq<Seq<char>>),
    Printf(Seq<char>, Seq<Seq<char>>),
    Print(Seq<char>),
}

/// Ghost mirror of `BlockType`.
pub enum SBlockType {
    Begin,
    Interval(int),
    Uprobe(Seq<char>),
    UprobeOffset(Seq<char>, int),
    Uretprobe(Seq<char>),
}

/// Ghost mirror of `Block`.
pub struct SBlock {
    pub btype: SBlockType,
    pub filter: Option<Seq<char>>,
    pub exprs: Seq<SExpr>,
}

/// One statement or construct inside a block.
pub enum Expression {
    /// Expression (without terminating semicolon)
    RawExpr(String),
    /// Conditional whose body is a list of raw expressions
    If { condition: String, body: Vec<String> },
    /// `printf`; the format is automatically quote-escaped when compiling
    Printf { format: String, args: Vec<String> },
    /// `print` of a single value
    Print(String),
}

/// What event a block attaches to.
pub enum BlockType {
    Begin,
    /// Rate in seconds
    Interval { rate_seconds: i32 },
    Uprobe(FunctionName),
    UprobeOffset(FunctionName, u32),
    Uretprobe(FunctionName),
}

/// One probe block: type, optional filter and a list of expressions.
pub struct Block {
    block_type: BlockType,
    filter: Option<String>,
    expressions: Vec<Expression>,
}

/// A whole bpftrace program.
pub struct BpftraceProgram {
    blocks: Vec<Block>,
}

impl View for Expression {
    type V = SExpr;

    open spec fn view(&self) -> SExpr {
        match self {
            Expression::RawExpr(s) => SExpr::Raw(s@),
            Expression::If { condition, body } => SExpr::If(condition@, body.deep_view()),
            Expression::Printf { format, args } => SExpr::Printf(format@, args.deep_view()),
            Expression::Print(v) => SExpr::Print(v@),
        }
    }
}

impl View for BlockType {
    type V = SBlockType;

    open spec fn view(&self) -> SBlockType {
        match self {
            BlockType::Begin => SBlockType::Begin,
            BlockType::Interval { rate_seconds } => SBlockType::Interval(*rate_seconds as int),
            BlockType::Uprobe(f) => SBlockType::Uprobe(f@),
            BlockType::UprobeOffset(f, off) => SBlockType::UprobeOffset(f@, *off as int),
            BlockType::Uretprobe(f) => SBlockType::Uretprobe(f@),
        }
    }
}

impl View for Block {
    type V = SBlock;

    closed spec fn view(&self) -> SBlock {
        SBlock {
            btype: self.block_type@,
            filter: match self.filter {
                Some(f) => Some(f@),
                None => None,
            },
            exprs: self.expressions@.map_values(|e: Expression| e@),
        }
    }
}

impl View for BpftraceProgram {
    type V = Seq<SBlock>;

    closed spec fn view(&self) -> Seq<SBlock> {
        self.blocks@.map_values(|b: Block| b@)
    }
}

/// `parts` joined by `sep`.
pub open spec fn s_join(parts: Seq<Seq<char>>, sep: Seq<char>) -> Seq<char>
    decreases parts.len(),
{
    if parts.len() == 0 {
        Seq::empty()
    } else if parts.len() == 1 {
        parts[0]
    } else {
        s_join(parts.drop_last(), sep) + sep + parts.last()
    }
}

/// `s` with every double quote preceded by a backslash.
pub open spec fn s_escape_quotes(s: Seq<char>) -> Seq<char>
    decreases s.len(),
{
    if s.len() == 0 {
        Seq::empty()
    } else {
        s_escape_quotes(s.drop_last()) + (if s.last() == '"' {
            seq!['\\', '"']
        } else {
            seq![s.last()]
        })
    }
}

/// Decimal rendering of a possibly negative integer.
pub open spec fn s_dec_int(n: int) -> Seq<char> {
    if n < 0 {
        seq!['-'] + strutil::spec_dec((-n) as nat)
    } else {
        strutil::spec_dec(n as nat)
    }
}

/// Compiled text of one expression.
pub open spec fn s_compile_expr(e: SExpr) -> Seq<char> {
    match e {
        SExpr::Raw(s) => s + ";"@,
        SExpr::If(c, body) => "if ("@ + c + ") { "@ + s_join(
            body.map_values(|b: Seq<char>| b + ";"@),
            " "@,
        ) + " }"@,
        SExpr::Printf(fmt, args) => "printf(\""@ + s_escape_quotes(fmt) + "\""@ + (if args.len()
            == 0 {
            Seq::<char>::empty()
        } else {
            ", "@ + s_join(args, ", "@)
        }) + ");"@,
        SExpr::Print(v) => "print("@ + v + ");"@,
    }
}

/// Compiled text of a list of expressions, joined by single spaces.
pub open spec fn s_compile_exprs(es: Seq<SExpr>) -> Seq<char> {
    s_join(es.map_values(|e: SExpr| s_compile_expr(e)), " "@)
}

/// The probe specifier that opens a block.
pub open spec fn s_header(t: SBlockType, path: Seq<char>) -> Seq<char> {
    match t {
        SBlockType::Begin => "BEGIN"@,
        SBlockType::Interval(r) => "interval:s:"@ + s_dec_int(r),
        SBlockType::Uprobe(f) => "uprobe:"@ + path + ":"@ + f,
        SBlockType::UprobeOffset(f, off) => "uprobe:"@ + path + ":"@ + f + "+"@ + s_dec_int(off),
        SBlockType::Uretprobe(f) => "uretprobe:"@ + path + ":"@ + f,
    }
}

/// Compiled text of one block.
pub open spec fn s_compile_block(b: SBlock, path: Seq<char>) -> Seq<char> {
    s_header(b.btype, path) + (match b.filter {
        Some(f) => " /"@ + f + "/"@,
        None => Seq::<char>::empty(),
    }) + " { "@ + s_compile_exprs(b.exprs) + " }"@
}

/// Compiled text of a whole program: blocks joined by single spaces.
pub open spec fn s_compile_program(bs: Seq<SBlock>, path: Seq<char>) -> Seq<char> {
    s_join(bs.map_values(|b: SBlock| s_compile_block(b, path)), " "@)
}

/// Append `part` to `out`, preceded by `sep` unless `out` is the first part.
/// Maintains the `s_join` shape.
fn join_step(out: &mut String, part: &str, sep: &str, first: bool, Ghost(parts): Ghost<
    Seq<Seq<char>>,
>, Ghost(k): Ghost<int>)
    requires
        0 <= k < parts.len(),
        old(out)@ == s_join(parts.take(k), sep@),
        part@ == parts[k],
        first == (k == 0),
    ensures
        final(out)@ == s_join(parts.take(k + 1), sep@),
{
    if !first {
        out.append(sep);
    }
    out.append(part);
    proof {
        assert(parts.take(k + 1).drop_last() =~= parts.take(k));
        assert(parts.take(k + 1).last() == parts[k]);
        if k == 0 {
            assert(s_join(parts.take(1), sep@) == parts[0]);
        }
    }
}

impl Expression {
    /// Compiled text of this expression.
    pub fn compile(&self) -> (r: String)
        ensures
            r@ == s_compile_expr(self@),
    {
        match self {
            Expression::RawExpr(e) => {
                let mut out = e.clone();
                out.append(";");
                out
            },
            Expression::If { condition, body } => {
                let mut out = String::new();
                out.append("if (");
                out.append(condition.as_str());
                out.append(") { ");
                let ghost parts = body.deep_view().map_values(|b: Seq<char>| b + ";"@);
                let mut inner = String::new();
                let mut i: usize = 0;
                assert(inner@ =~= s_join(parts.take(0), " "@));
                while i < body.len()
                    invariant
                        i <= body@.len(),
                        parts == body.deep_view().map_values(|b: Seq<char>| b + ";"@),
                        parts.len() == body@.len(),
                        inner@ == s_join(parts.take(i as int), " "@),
                    decreases body@.len() - i,
                {
                    let mut piece = body[i].clone();
                    piece.append(";");
                    assert(piece@ == parts[i as int]) by {
                        assert(body.deep_view()[i as int] == body@[i as int]@);
                    }
                    join_step(&mut inner, piece.as_str(), " ", i == 0, Ghost(parts), Ghost(i as int));
                    i = i + 1;
                }
                assert(parts.take(parts.len() as int) =~= parts);
                out.append(inner.as_str());
                out.append(" }");
                assert(out@ =~= s_compile_expr(self@));
                out
            },
            Expression::Printf { format, args } => {
                let mut out = String::new();
                out.append("printf(\"");
                let escaped = escape_quotes(format.as_str());
                out.append(escaped.as_str());
                out.append("\"");
                if args.len() > 0 {
                    out.append(", ");
                    let ghost parts = args.deep_view();
                    let mut inner = String::new();
                    let mut i: usize = 0;
                    assert(inner@ =~= s_join(parts.take(0), ", "@));
                    while i < args.len()
                        invariant
                            i <= args@.len(),
                            parts == args.deep_view(),
                            parts.len() == args@.len(),
                            inner@ == s_join(parts.take(i as int), ", "@),
                        decreases args@.len() - i,
                    {
                        assert(args@[i as int]@ == parts[i as int]);
                        join_step(
                            &mut inner,
                            args[i].as_str(),
                            ", ",
                            i == 0,
                            Ghost(parts),
                            Ghost(i as int),
                        );
                        i = i + 1;
                    }
                    assert(parts.take(parts.len() as int) =~= parts);
                    out.append(inner.as_str());
                }
                out.append(");");
                assert(out@ =~= s_compile_expr(self@));
                out
            },
            Expression::Print(v) => {
                let mut out = String::new();
                out.append("print(");
                out.append(v.as_str());
                out.append(");");
                assert(out@ =~= s_compile_expr(self@));
                out
            },
        }
    }

    /// Compiled text of a list of expressions, joined by single spaces.
    pub fn compile_vec(expressions: &Vec<Expression>) -> (r: String)
        ensures
            r@ == s_compile_exprs(expressions@.map_values(|e: Expression| e@)),
    {
        let ghost parts = expressions@.map_values(|e: Expression| e@).map_values(
            |e: SExpr| s_compile_expr(e),
        );
        let mut out = String::new();
        let mut i: usize = 0;
        assert(out@ =~= s_join(parts.take(0), " "@));
        while i < expressions.len()
            invariant
                i <= expressions@.len(),
                parts == expressions@.map_values(|e: Expression| e@).map_values(
                    |e: SExpr| s_compile_expr(e),
                ),
                parts.len() == expressions@.len(),
                out@ == s_join(parts.take(i as int), " "@),
            decreases expressions@.len() - i,
        {
            let piece = expressions[i].compile();
            assert(piece@ == parts[i as int]);
            join_step(&mut out, piece.as_str(), " ", i == 0, Ghost(parts), Ghost(i as int));
            i = i + 1;
        }
        assert(parts.take(parts.len() as int) =~= parts);
        out
    }
}

/// `s` with every double quote preceded by a backslash.
fn escape_quotes(s: &str) -> (r: String)
    ensures
        r@ == s_escape_quotes(s@),
{
    let chars = strutil::chars_of(s);
    let mut out = String::new();
    let mut i: usize = 0;
    assert(out@ =~= s_escape_quotes(s@.take(0)));
    while i < chars.len()
        invariant
            chars@ == s@,
            i <= s@.len(),
            out@ == s_escape_quotes(s@.take(i as int)),
        decreases s@.len() - i,
    {
        let c = chars[i];
        if c == '"' {
            out.append("\\\"");
            proof {
                reveal_strlit("\\\"");
            }
        } else {
            strutil::push_char(&mut out, c);
        }
        proof {
            assert(s@.take(i + 1).drop_last() =~= s@.take(i as int));
            assert(s@.take(i + 1).last() == s@[i as int]);
            if c == '"' {
                assert(out@ =~= s_escape_quotes(s@.take(i + 1)));
            } else {
                assert(out@ =~= s_escape_quotes(s@.take(i + 1)));
            }
        }
        i = i + 1;
    }
    assert(s@.take(s@.len() as int) =~= s@);
    out
}

/// Decimal rendering of a possibly negative `i64`.
pub fn dec_i64(n: i64) -> (r: String)
    ensures
        r@ == s_dec_int(n as int),
{
    if n < 0 {
        let mut out = String::new();
        out.append("-");
        let mag: u64 = if n == i64::MIN {
            9223372036854775808u64
        } else {
            (-n) as u64
        };
        let digits = strutil::dec_u64(mag);
        out.append(digits.as_str());
        proof {
            reveal_strlit("-");
            assert(out@ =~= s_dec_int(n as int));
        }
        out
    } else {
        strutil::dec_u64(n as u64)
    }
}

impl Block {
    /// Make a block from its parts.
    pub fn new(block_type: BlockType, filter: Option<String>, expressions: Vec<Expression>) -> (r:
        Block)
        ensures
            r@ == (SBlock {
                btype: block_type@,
                filter: match filter {
                    Some(f) => Some(f@),
                    None => None,
                },
                exprs: expressions@.map_values(|e: Expression| e@),
            }),
    {
        Block { block_type, filter, expressions }
    }

    /// The event this block attaches to.
    pub fn get_type(&self) -> (r: &BlockType)
        ensures
            r@ == self@.btype,
    {
        &self.block_type
    }

    /// Append one expression.
    pub fn add(&mut self, expression: Expression)
        ensures
            final(self)@ == (SBlock { exprs: old(self)@.exprs.push(expression@), ..old(self)@ }),
    {
        self.expressions.push(expression);
        assert(final(self)@.exprs =~= old(self)@.exprs.push(expression@));
    }

    /// Append a list of expressions.
    pub fn extend(&mut self, expressions: Vec<Expression>)
        ensures
            final(self)@ == (SBlock {
                exprs: old(self)@.exprs + expressions@.map_values(|e: Expression| e@),
                ..old(self)@
            }),
    {
        let mut rest = expressions;
        self.expressions.append(&mut rest);
        assert(final(self)@.exprs =~= old(self)@.exprs + expressions@.map_values(
            |e: Expression| e@,
        ));
    }

    /// Compiled text of this block.
    pub fn compile(&self, program_path: &str) -> (r: String)
        ensures
            r@ == s_compile_block(self@, program_path@),
    {
        let mut out = String::new();
        match &self.block_type {
            BlockType::Begin => {
                out.append("BEGIN");
            },
            BlockType::Interval { rate_seconds } => {
                out.append("interval:s:");
                let d = dec_i64(*rate_seconds as i64);
                out.append(d.as_str());
            },
            BlockType::Uprobe(function) => {
                out.append("uprobe:");
                out.append(program_path);
                out.append(":");
                out.append(function.as_str());
            },
            BlockType::UprobeOffset(function, offset) => {
                out.append("uprobe:");
                out.append(program_path);
                out.append(":");
                out.append(function.as_str());
                out.append("+");
                let d = strutil::dec_u64(*offset as u64);
                out.append(d.as_str());
            },
            BlockType::Uretprobe(function) => {
                out.append("uretprobe:");
                out.append(program_path);
                out.append(":");
                out.append(function.as_str());
            },
        }
        assert(out@ =~= s_header(self@.btype, program_path@));
        match &self.filter {
            Some(filter) => {
                out.append(" /");
                out.append(filter.as_str());
                out.append("/");
            },
            None => {},
        }
        out.append(" { ");
        let inner = Expression::compile_vec(&self.expressions);
        out.append(inner.as_str());
        out.append(" }");
        assert(out@ =~= s_compile_block(self@, program_path@));
        out
    }
}

impl BpftraceProgram {
    /// An empty program.
    pub fn new() -> (r: BpftraceProgram)
        ensures
            r@ == Seq::<SBlock>::empty(),
    {
        let r = BpftraceProgram { blocks: Vec::new() };
        proof {
            assert(r@ =~= Seq::<SBlock>::empty());
        }
        r
    }

    /// Append a block.
    pub fn add(&mut self, block: Block)
        ensures
            final(self)@ == old(self)@.push(block@),
    {
        self.blocks.push(block);
        assert(final(self)@ =~= old(self)@.push(block@));
    }

    /// Mutable access to the blocks of the program.
    pub fn iter_mut(&mut self) -> (r: &mut Vec<Block>)
        ensures
            r@.map_values(|b: Block| b@) == old(self)@,
            final(self)@ == final(r)@.map_values(|b: Block| b@),
    {
        &mut self.blocks
    }

    /// Compiled text of the whole program: blocks joined by single spaces.
    pub fn compile(&self, program_path: &str) -> (r: String)
        ensures
            r@ == s_compile_program(self@, program_path@),
    {
        let ghost parts = self@.map_values(|b: SBlock| s_compile_block(b, program_path@));
        let mut out = String::new();
        let mut i: usize = 0;
        assert(out@ =~= s_join(parts.take(0), " "@));
        while i < self.blocks.len()
            invariant
                i <= self.blocks@.len(),
                parts == self@.map_values(|b: SBlock| s_compile_block(b, program_path@)),
                parts.len() == self.blocks@.len(),
                out@ == s_join(parts.take(i as int), " "@),
            decreases self.blocks@.len() - i,
        {
            let piece = self.blocks[i].compile(program_path);
            assert(piece@ == parts[i as int]);
            join_step(&mut out, piece.as_str(), " ", i == 0, Ghost(parts), Ghost(i as int));
            i = i + 1;
        }
        assert(parts.take(parts.len() as int) =~= parts);
        out
    }
}

} // verus!
