//! `[export(..)]` metadata on HIR items: target partitions, export name and casing.
use vstd::prelude::*;
use crate::names::{join_strings, views, Identifier, NamePath};
use crate::text::{append, chars_of, join, opt_view, owned, str_equal, string_of};

verus! {

// ---------------------------------------------------------------- HIR fragment

/// One segment of a string literal: plain text or an interpolated expression.
#[derive(Debug)]
pub enum HirStringSegment {
    Text(String),
    Interpolation(Box<HirExpr>),
}

/// A string literal made of segments.
#[derive(Debug)]
pub struct HirStringLiteral {
    pub segments: Vec<HirStringSegment>,
}

/// A literal expression.
#[derive(Debug)]
pub enum HirLiteral {
    String(HirStringLiteral),
    Integer(i64),
    Boolean(bool),
}

/// The shape of an expression, as far as attribute arguments need it.
#[derive(Debug)]
pub enum HirExprKind {
    Literal(HirLiteral),
    Path(NamePath),
    Other,
}

/// An expression.
#[derive(Debug)]
pub struct HirExpr {
    pub kind: HirExprKind,
}

/// An attribute argument, positional or keyed (`key: value`).
#[derive(Debug)]
pub struct HirArgument {
    pub key: Option<Identifier>,
    pub value: HirExpr,
}

/// An attribute such as `[export(unity.runtime)]`.
#[derive(Debug)]
pub struct HirAttribute {
    pub name: NamePath,
    pub arguments: Vec<HirArgument>,
}

// ---------------------------------------------------------------- export spec

/// Export partition and optional rename for CLR / wasm / Nyar module surfaces.
#[derive(Debug, Clone, PartialEq, Eq)]
pub struct HirExportSpec {
    /// Target export partitions. Empty means `default` at use sites.
    pub partitions: Vec<String>,
    /// Optional exported symbol name override (`name: "twoSum"`).
    pub export_name: Option<String>,
    /// Optional casing transform (`case: "camelCase"`).
    pub export_case: Option<String>,
}

// ---------------------------------------------------------------- casing

/// `char::to_uppercase`: the upper-case mapping of one character (one or more characters).
pub uninterp spec fn char_uppercase(c: char) -> Seq<char>;

/// `char::to_uppercase`, collected: the Unicode upper-case mapping of `c`, which the standard
/// library defines by its case tables; the result is named, not described. Of it the contract
/// states what the documentation gives: the mapping yields at least one character (the
/// character itself when it has no upper-case mapping), and an ASCII lower-case letter maps to
/// its ASCII upper-case letter, 32 code points lower.
#[verifier::external_body]
fn uppercase_of(c: char) -> (r: Vec<char>)
    ensures
        r@ == char_uppercase(c),
        r@.len() > 0,
        'a' <= c <= 'z' ==> r@ == seq![((c as int) - 32) as char],
{
    c.to_uppercase().collect()
}

/// The snake-to-camel conversion of `s` and whether the next character is to be upper-cased:
/// each `_` is dropped and marks the next character for upper-casing.
pub open spec fn camel_state(s: Seq<char>) -> (Seq<char>, bool)
    decreases s.len(),
{
    if s.len() == 0 {
        (Seq::empty(), false)
    } else {
        let (out, upper_next) = camel_state(s.drop_last());
        let c = s.last();
        if c == '_' {
            (out, true)
        } else if upper_next {
            (out + char_uppercase(c), false)
        } else {
            (out.push(c), false)
        }
    }
}

/// `two_sum` → `twoSum`: underscores dropped, the character after each run of them upper-cased.
pub open spec fn camel_case(s: Seq<char>) -> Seq<char> {
    camel_state(s).0
}

/// Every character right after an underscore is another underscore or an ASCII lower-case
/// letter.
pub open spec fn lower_after_underscores(s: Seq<char>) -> bool {
    forall|i: int| 0 < i < s.len() && s[i - 1] == '_' && s[i] != '_' ==> 'a' <= #[trigger] s[i] <= 'z'
}

/// The ASCII upper-case letter of an ASCII lower-case letter; any other character unchanged.
pub open spec fn ascii_upper(c: char) -> char {
    if 'a' <= c <= 'z' {
        ((c as int) - 32) as char
    } else {
        c
    }
}

/// [`camel_state`] with ASCII upper-casing.
pub open spec fn ascii_camel_state(s: Seq<char>) -> (Seq<char>, bool)
    decreases s.len(),
{
    if s.len() == 0 {
        (Seq::empty(), false)
    } else {
        let (out, upper_next) = ascii_camel_state(s.drop_last());
        let c = s.last();
        if c == '_' {
            (out, true)
        } else if upper_next {
            (out.push(ascii_upper(c)), false)
        } else {
            (out.push(c), false)
        }
    }
}

/// Snake to camel case with ASCII upper-casing: `two_sum` → `twoSum`.
pub open spec fn ascii_camel_case(s: Seq<char>) -> Seq<char> {
    ascii_camel_state(s).0
}

/// `two_sum` → `twoSum`. Underscores are dropped and the character after a run of them is
/// upper-cased; when every such character is an ASCII lower-case letter, the result is the ASCII
/// camel case of the name and has no underscore.
pub fn snake_case_to_camel_case(name: &str) -> (r: String)
    ensures
        r@ == camel_case(name@),
        lower_after_underscores(name@) ==> r@ == ascii_camel_case(name@),
        lower_after_underscores(name@) ==> !r@.contains('_'),
{
    let chars = chars_of(name);
    let mut out: Vec<char> = Vec::new();
    let mut upper_next = false;
    let mut i: usize = 0;
    while i < chars.len()
        invariant
            i <= chars@.len(),
            chars@ == name@,
            (out@, upper_next) == camel_state(chars@.take(i as int)),
            upper_next == (i > 0 && chars@[i - 1] == '_'),
            lower_after_underscores(name@) ==> !out@.contains('_'),
            lower_after_underscores(name@) ==> (out@, upper_next) == ascii_camel_state(chars@.take(i as int)),
        decreases chars.len() - i,
    {
        let ch = chars[i];
        proof {
            assert(chars@.take(i + 1).drop_last() =~= chars@.take(i as int));
            assert(chars@.take(i + 1).last() == ch);
        }
        if ch == '_' {
            upper_next = true;
        } else if upper_next {
            let upper = uppercase_of(ch);
            let ghost before = out@;
            proof {
                if lower_after_underscores(name@) {
                    assert('a' <= chars@[i as int] <= 'z');
                    assert(!upper@.contains('_')) by {
                        if upper@.contains('_') {
                            let j = choose|j: int| 0 <= j < upper@.len() && upper@[j] == '_';
                            assert(upper@[j] == ((ch as int) - 32) as char);
                        }
                    }
                }
            }
            let mut k: usize = 0;
            while k < upper.len()
                invariant
                    k <= upper@.len(),
                    out@ == before + upper@.take(k as int),
                    lower_after_underscores(name@) ==> !before.contains('_') && !upper@.contains('_'),
                decreases upper.len() - k,
            {
                out.push(upper[k]);
                k = k + 1;
                assert(out@ =~= before + upper@.take(k as int));
            }
            assert(upper@.take(upper@.len() as int) =~= upper@);
            proof {
                if lower_after_underscores(name@) {
                    assert(!out@.contains('_')) by {
                        if out@.contains('_') {
                            let j = choose|j: int| 0 <= j < out@.len() && out@[j] == '_';
                            if j < before.len() {
                                assert(before[j] == '_');
                            } else {
                                assert(upper@[j - before.len()] == '_');
                            }
                        }
                    }
                }
            }
            proof {
                if lower_after_underscores(name@) {
                    assert(upper@ == seq![ascii_upper(ch)]);
                    assert(out@ =~= before.push(ascii_upper(ch)));
                }
            }
            upper_next = false;
        } else {
            let ghost before = out@;
            out.push(ch);
            proof {
                if lower_after_underscores(name@) {
                    assert(!out@.contains('_')) by {
                        if out@.contains('_') {
                            let j = choose|j: int| 0 <= j < out@.len() && out@[j] == '_';
                            if j < before.len() {
                                assert(before[j] == '_');
                            }
                        }
                    }
                }
            }
        }
        i = i + 1;
    }
    assert(chars@.take(chars@.len() as int) =~= chars@);
    string_of(&out)
}

/// A name without underscores converts to itself.
pub proof fn lemma_camel_case_without_underscore(s: Seq<char>)
    requires
        !s.contains('_'),
    ensures
        camel_case(s) == s,
{
    lemma_camel_state_plain(s);
}

proof fn lemma_camel_state_plain(s: Seq<char>)
    requires
        !s.contains('_'),
    ensures
        camel_state(s) == (s, false),
    decreases s.len(),
{
    if s.len() > 0 {
        assert(!s.drop_last().contains('_')) by {
            if s.drop_last().contains('_') {
                let i = choose|i: int| 0 <= i < s.drop_last().len() && s.drop_last()[i] == '_';
                assert(s[i] == '_');
            }
        }
        lemma_camel_state_plain(s.drop_last());
        assert(s.last() != '_') by {
            assert(s[s.len() - 1] == s.last());
        }
        assert(s.drop_last().push(s.last()) =~= s);
    }
}

/// Converting drops every underscore and keeps every character before the first one.
pub proof fn lemma_camel_case_keeps_prefix(s: Seq<char>, n: int)
    requires
        0 <= n <= s.len(),
        !s.take(n).contains('_'),
    ensures
        camel_case(s).len() >= n,
        camel_case(s).take(n) == s.take(n),
    decreases s.len(),
{
    if s.len() == n {
        assert(s.take(n) =~= s);
        lemma_camel_case_without_underscore(s);
    } else {
        lemma_camel_case_keeps_prefix(s.drop_last(), n);
        assert(s.drop_last().take(n) =~= s.take(n));
        let (out, up) = camel_state(s.drop_last());
        let c = s.last();
        if c == '_' {
        } else if up {
            assert((out + char_uppercase(c)).take(n) =~= out.take(n));
        } else {
            assert(out.push(c).take(n) =~= out.take(n));
        }
    }
}

// ---------------------------------------------------------------- parsing

/// The text of a string literal made only of text segments.
pub open spec fn literal_text(segments: Seq<HirStringSegment>) -> Option<Seq<char>>
    decreases segments.len(),
{
    if segments.len() == 0 {
        Some(Seq::empty())
    } else {
        match (literal_text(segments.drop_last()), segments.last()) {
            (Some(prefix), HirStringSegment::Text(t)) => Some(prefix + t@),
            _ => None,
        }
    }
}

/// The text of an expression that is a plain string literal.
pub open spec fn string_literal_text(expr: HirExpr) -> Option<Seq<char>> {
    match expr.kind {
        HirExprKind::Literal(HirLiteral::String(literal)) => literal_text(literal.segments@),
        _ => None,
    }
}

/// The partition a positional export argument names: a plain string literal's text, or a
/// path's segments joined by `.`.
pub open spec fn partition_of(expr: HirExpr) -> Option<Seq<char>> {
    match expr.kind {
        HirExprKind::Literal(HirLiteral::String(literal)) => literal_text(literal.segments@),
        HirExprKind::Path(path) => Some(join(path@, "."@)),
        _ => None,
    }
}

/// Export settings gathered from arguments.
pub ghost struct ExportModel {
    pub partitions: Seq<Seq<char>>,
    pub export_name: Option<Seq<char>>,
    pub export_case: Option<Seq<char>>,
}

/// The effect of one argument: `name:` and `case:` set the name and casing from a string
/// literal; any other key becomes the name unless one is set; a positional argument adds a partition.
pub open spec fn apply_argument(st: ExportModel, argument: HirArgument) -> ExportModel {
    match argument.key {
        Some(key) => if key@ == "name"@ {
            ExportModel { export_name: string_literal_text(argument.value), ..st }
        } else if key@ == "case"@ {
            ExportModel { export_case: string_literal_text(argument.value), ..st }
        } else if st.export_name is None {
            ExportModel { export_name: Some(key@), ..st }
        } else {
            st
        },
        None => match partition_of(argument.value) {
            Some(p) => ExportModel { partitions: st.partitions.push(p), ..st },
            None => st,
        },
    }
}

/// The settings after the first `n` arguments.
pub open spec fn apply_arguments(arguments: Seq<HirArgument>, n: int) -> ExportModel
    decreases n,
{
    if n <= 0 {
        ExportModel { partitions: Seq::empty(), export_name: None, export_case: None }
    } else {
        apply_argument(apply_arguments(arguments, n - 1), arguments[n - 1])
    }
}

/// Attributes whose last name segment is `export`.
pub open spec fn is_export_attribute() -> spec_fn(HirAttribute) -> bool {
    |a: HirAttribute| a.name@.len() > 0 && a.name@.last() == "export"@
}

/// The export spec of the first `export` attribute: `default` partition when it has no
/// arguments; otherwise the gathered settings, with `default` when no partition was named.
pub open spec fn export_spec_of(annotations: Seq<HirAttribute>) -> Option<ExportModel> {
    match crate::search::first_index(annotations, is_export_attribute()) {
        None => None,
        Some(i) => {
            let arguments = annotations[i].arguments@;
            if arguments.len() == 0 {
                Some(ExportModel { partitions: seq!["default"@], export_name: None, export_case: None })
            } else {
                let st = apply_arguments(arguments, arguments.len() as int);
                if st.partitions.len() == 0 {
                    Some(ExportModel { partitions: seq!["default"@], ..st })
                } else {
                    Some(st)
                }
            }
        },
    }
}

impl HirExportSpec {
    /// The settings this spec holds.
    pub open spec fn model(&self) -> ExportModel {
        ExportModel {
            partitions: views(self.partitions@),
            export_name: opt_view(self.export_name),
            export_case: opt_view(self.export_case),
        }
    }

    /// Primary partition for artifact routing: the first one, or `default`.
    pub fn primary_partition(&self) -> (r: String)
        ensures
            r@ == if self.partitions@.len() > 0 {
                self.partitions@[0]@
            } else {
                "default"@
            },
    {
        if self.partitions.len() > 0 {
            owned(self.partitions[0].as_str())
        } else {
            owned("default")
        }
    }

    /// The exported symbol for a local name: the explicit export name; else the local name
    /// camel-cased for `camelCase`, unchanged for `snake_case` or no casing, and any other
    /// casing value taken as the name itself.
    pub fn resolve_exported_name(&self, local_name: &Identifier) -> (r: String)
        ensures
            r@ == match self.export_name {
                Some(name) => name@,
                None => match self.export_case {
                    Some(case) => if case@ == "camelCase"@ {
                        camel_case(local_name@)
                    } else if case@ == "snake_case"@ {
                        local_name@
                    } else {
                        case@
                    },
                    None => local_name@,
                },
            },
            self.export_name is None && self.export_case is Some && self.export_case->0@ == "camelCase"@
                && lower_after_underscores(local_name@) ==> r@ == ascii_camel_case(local_name@) && !r@.contains('_'),
    {
        if let Some(name) = &self.export_name {
            return owned(name.as_str());
        }
        match &self.export_case {
            Some(case) => {
                if str_equal(case.as_str(), "camelCase") {
                    snake_case_to_camel_case(local_name.as_str())
                } else if str_equal(case.as_str(), "snake_case") {
                    owned(local_name.as_str())
                } else {
                    owned(case.as_str())
                }
            },
            None => owned(local_name.as_str()),
        }
    }
}

fn literal_segments_text(literal: &HirStringLiteral) -> (r: Option<String>)
    ensures
        opt_view(r) == literal_text(literal.segments@),
{
    let mut rendered = String::new();
    let mut i: usize = 0;
    while i < literal.segments.len()
        invariant
            i <= literal.segments@.len(),
            literal_text(literal.segments@.take(i as int)) == Some(rendered@),
        decreases literal.segments.len() - i,
    {
        proof {
            assert(literal.segments@.take(i + 1).drop_last() =~= literal.segments@.take(i as int));
        }
        match &literal.segments[i] {
            HirStringSegment::Text(text) => append(&mut rendered, text.as_str()),
            _ => {
                proof {
                    lemma_literal_text_none_extends(literal.segments@, i as int + 1);
                }
                return None;
            },
        }
        i = i + 1;
    }
    assert(literal.segments@.take(literal.segments@.len() as int) =~= literal.segments@);
    Some(rendered)
}

proof fn lemma_literal_text_none_extends(segments: Seq<HirStringSegment>, n: int)
    requires
        0 < n <= segments.len(),
        literal_text(segments.take(n)) is None,
    ensures
        literal_text(segments) is None,
    decreases segments.len() - n,
{
    if n < segments.len() {
        assert(segments.take(n + 1).drop_last() =~= segments.take(n));
        lemma_literal_text_none_extends(segments, n + 1);
    } else {
        assert(segments.take(n) =~= segments);
    }
}

/// The text of a keyed argument's value when it is a plain string literal.
fn argument_string_literal(argument: &HirArgument) -> (r: Option<String>)
    ensures
        opt_view(r) == string_literal_text(argument.value),
{
    match &argument.value.kind {
        HirExprKind::Literal(HirLiteral::String(literal)) => literal_segments_text(literal),
        _ => None,
    }
}

/// The partition a positional export argument names.
fn export_arg_to_partition(expr: &HirExpr) -> (r: Option<String>)
    ensures
        opt_view(r) == partition_of(*expr),
{
    match &expr.kind {
        HirExprKind::Literal(HirLiteral::String(literal)) => literal_segments_text(literal),
        HirExprKind::Path(path) => Some(path_to_partition(path)),
        _ => None,
    }
}

/// A path's segments joined by `.`.
fn path_to_partition(path: &NamePath) -> (r: String)
    ensures
        r@ == join(path@, "."@),
{
    join_strings(&path.parts, ".")
}

/// Index of the first attribute named `export` (by its last path segment).
fn first_export_attribute(annotations: &[HirAttribute]) -> (r: Option<usize>)
    ensures
        match r {
            Some(i) => i < annotations@.len() && crate::search::first_index(annotations@, is_export_attribute()) == Some(i as int),
            None => crate::search::first_index(annotations@, is_export_attribute()) is None,
        },
{
    let mut index: usize = 0;
    while index < annotations.len()
        invariant
            index <= annotations@.len(),
            forall|j: int| 0 <= j < index ==> !(#[trigger] is_export_attribute()(annotations@[j])),
        decreases annotations.len() - index,
    {
        let name = &annotations[index].name;
        let n = name.parts.len();
        if n > 0 && str_equal(name.parts[n - 1].as_str(), "export") {
            proof {
                assert(name@.last() == name.parts@[n - 1]@);
                crate::search::lemma_first_index_is(annotations@, is_export_attribute(), index as int);
            }
            return Some(index);
        }
        proof {
            if name@.len() > 0 {
                assert(name@.last() == name.parts@[n - 1]@);
            }
        }
        index = index + 1;
    }
    proof {
        crate::search::lemma_first_index_none(annotations@, is_export_attribute());
    }
    None
}

/// Parses `[export]` / `[export(unity.runtime)]` / `[export(name: "twoSum")]` /
/// `[export(case: "camelCase")]` from the first `export` attribute, if there is one.
pub fn parse_export_spec_from_annotations(annotations: &[HirAttribute]) -> (r: Option<HirExportSpec>)
    ensures
        match r {
            Some(spec) => export_spec_of(annotations@) == Some(spec.model()),
            None => export_spec_of(annotations@) is None,
        },
{
    let index = match first_export_attribute(annotations) {
        Some(index) => index,
        None => return None,
    };
    let attribute = &annotations[index];
    if attribute.arguments.len() == 0 {
        let mut partitions: Vec<String> = Vec::new();
        partitions.push(owned("default"));
        let spec = HirExportSpec { partitions, export_name: None, export_case: None };
        assert(spec.model().partitions =~= seq!["default"@]);
        return Some(spec);
    }
    let mut partitions: Vec<String> = Vec::new();
    let mut export_name: Option<String> = None;
    let mut export_case: Option<String> = None;
    let arguments = &attribute.arguments;
    let mut i: usize = 0;
    assert(views(partitions@) =~= Seq::empty());
    while i < arguments.len()
        invariant
            i <= arguments@.len(),
            apply_arguments(arguments@, i as int) == (ExportModel {
                partitions: views(partitions@),
                export_name: opt_view(export_name),
                export_case: opt_view(export_case),
            }),
        decreases arguments.len() - i,
    {
        let argument = &arguments[i];
        match &argument.key {
            Some(key) => {
                if str_equal(key.as_str(), "name") {
                    export_name = argument_string_literal(argument);
                } else if str_equal(key.as_str(), "case") {
                    export_case = argument_string_literal(argument);
                } else if export_name.is_none() {
                    export_name = Some(owned(key.as_str()));
                }
            },
            None => {
                if let Some(partition) = export_arg_to_partition(&argument.value) {
                    let ghost before = partitions@;
                    partitions.push(partition);
                    assert(views(partitions@) =~= views(before).push(partition@));
                }
            },
        }
        i = i + 1;
    }
    if partitions.len() == 0 {
        partitions.push(owned("default"));
        assert(views(partitions@) =~= seq!["default"@]);
    }
    Some(HirExportSpec { partitions, export_name, export_case })
}

/// The partitions that the positional arguments name, in order: plain string literals and
/// paths joined by `.`.
pub open spec fn named_partitions(args: Seq<HirArgument>) -> Seq<Seq<char>>
    decreases args.len(),
{
    if args.len() == 0 {
        Seq::empty()
    } else {
        let prev = named_partitions(args.drop_last());
        match args.last().key {
            Some(_) => prev,
            None => match partition_of(args.last().value) {
                Some(p) => prev.push(p),
                None => prev,
            },
        }
    }
}

proof fn lemma_apply_partitions(args: Seq<HirArgument>, n: int)
    requires
        0 <= n <= args.len(),
    ensures
        apply_arguments(args, n).partitions == named_partitions(args.take(n)),
    decreases n,
{
    if n > 0 {
        lemma_apply_partitions(args, n - 1);
        assert(args.take(n).drop_last() =~= args.take(n - 1));
        assert(args.take(n).last() == args[n - 1]);
    } else {
        assert(args.take(0) =~= Seq::<HirArgument>::empty());
    }
}

/// There is an export spec exactly when some attribute's last name segment is `export`; it is
/// read from the first such attribute only, and its partitions are never empty: those its
/// positional arguments name, in order, or `default` when they name none.
pub proof fn lemma_export_spec_partitions(annotations: Seq<HirAttribute>)
    ensures
        (export_spec_of(annotations) is None) <==> forall|i: int|
            0 <= i < annotations.len() ==> !(#[trigger] is_export_attribute()(annotations[i])),
        export_spec_of(annotations) matches Some(m) ==> {
            let i = crate::search::first_index(annotations, is_export_attribute())->0;
            let ps = named_partitions(annotations[i].arguments@);
            &&& 0 <= i < annotations.len()
            &&& is_export_attribute()(annotations[i])
            &&& forall|k: int| 0 <= k < i ==> !(#[trigger] is_export_attribute()(annotations[k]))
            &&& m.partitions.len() > 0
            &&& m.partitions == if ps.len() == 0 {
                seq!["default"@]
            } else {
                ps
            }
        },
{
    crate::search::lemma_first_index(annotations, is_export_attribute());
    if let Some(i) = crate::search::first_index(annotations, is_export_attribute()) {
        let args = annotations[i].arguments@;
        lemma_apply_partitions(args, args.len() as int);
        assert(args.take(args.len() as int) =~= args);
        if args.len() == 0 {
            assert(named_partitions(args) =~= Seq::<Seq<char>>::empty());
        }
    }
}

} // verus!
