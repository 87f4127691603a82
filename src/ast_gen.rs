use vstd::prelude::*;
use crate::lexical::{find_char, lemma_find_char};
use crate::text::{char_vec, text_between, trim_of, lower_of, trimmed, lowercase};

verus! {

/// One node kind of a generated syntax tree.
#[derive(Clone, Debug)]
pub struct TreeType {
    pub base_class_name: String,
    pub class_name: String,
    pub fields: Vec<String>,
}

/// Mathematical model of a `TreeType`.
pub struct TreeTypeView {
    pub base_class_name: Seq<char>,
    pub class_name: Seq<char>,
    pub fields: Seq<Seq<char>>,
}

impl View for TreeType {
    type V = TreeTypeView;

    open spec fn view(&self) -> TreeTypeView {
        TreeTypeView {
            base_class_name: self.base_class_name@,
            class_name: self.class_name@,
            fields: self.fields@.map_values(|f: String| f@),
        }
    }
}

/// The text before and after the first `c` in `s`, if there is one.
pub open spec fn split_first(s: Seq<char>, c: char) -> Option<(Seq<char>, Seq<char>)> {
    let k = find_char(s, 0, c);
    if k < s.len() {
        Some((s.subrange(0, k), s.subrange(k + 1, s.len() as int)))
    } else {
        None
    }
}

/// The pieces of `s[start..]` between occurrences of `c`.
pub open spec fn pieces_from(s: Seq<char>, start: int, c: char) -> Seq<Seq<char>>
    decreases s.len() - start,
{
    let k = find_char(s, start, c);
    if 0 <= start <= k < s.len() {
        seq![s.subrange(start, k)] + pieces_from(s, k + 1, c)
    } else {
        seq![s.subrange(start, s.len() as int)]
    }
}

/// A trimmed field description `Type name` rendered as `name: Type`: split
/// at the first space; `None` where there is none.
pub open spec fn field_from(t: Seq<char>) -> Option<Seq<char>> {
    match split_first(t, ' ') {
        Some((ty, name)) => Some(name + ": "@ + ty),
        None => None,
    }
}

/// A field description, trimmed first.
pub open spec fn field_of(arg: Seq<char>) -> Option<Seq<char>> {
    field_from(trim_of(arg))
}

/// The fields of a list of field descriptions; `None` if one is malformed.
pub open spec fn fields_of(args: Seq<Seq<char>>) -> Option<Seq<Seq<char>>>
    decreases args.len(),
{
    if args.len() == 0 {
        Some(Seq::empty())
    } else {
        match (fields_of(args.drop_last()), field_of(args.last())) {
            (Some(fs), Some(f)) => Some(fs.push(f)),
            _ => None,
        }
    }
}

/// A node description `Name : Type field, Type field, ...`.
pub open spec fn tree_type_of(desc: Seq<char>, base_name: Seq<char>) -> Option<TreeTypeView> {
    match split_first(desc, ':') {
        Some((name, args)) => match fields_of(pieces_from(args, 0, ',')) {
            Some(fields) => Some(TreeTypeView {
                base_class_name: trim_of(name),
                class_name: trim_of(name) + base_name,
                fields,
            }),
            None => None,
        },
        None => None,
    }
}

/// The node kinds of a list of node descriptions; `None` if one is malformed.
pub open spec fn tree_types_of(descs: Seq<Seq<char>>, base_name: Seq<char>) -> Option<Seq<TreeTypeView>>
    decreases descs.len(),
{
    if descs.len() == 0 {
        Some(Seq::empty())
    } else {
        match (tree_types_of(descs.drop_last(), base_name), tree_type_of(descs.last(), base_name)) {
            (Some(ts), Some(t)) => Some(ts.push(t)),
            _ => None,
        }
    }
}

/// The concatenation of `parts`, in order.
pub open spec fn join_all(parts: Seq<Seq<char>>) -> Seq<char>
    decreases parts.len(),
{
    if parts.len() == 0 {
        Seq::empty()
    } else {
        join_all(parts.drop_last()) + parts.last()
    }
}

pub open spec fn enum_line(t: TreeTypeView) -> Seq<char> {
    "    "@ + t.base_class_name + "("@ + t.class_name + ")\n"@
}

pub open spec fn field_line(f: Seq<char>) -> Seq<char> {
    "    "@ + f + ",\n"@
}

pub open spec fn struct_block(t: TreeTypeView) -> Seq<char> {
    "pub struct "@ + t.class_name + " {\n"@ + join_all(field_lines(t.fields)) + "}\n\n"@
}

pub open spec fn visit_name(t: TreeTypeView, base_name: Seq<char>) -> Seq<char> {
    "visit_"@ + lower_of(t.base_class_name) + "_"@ + lower_of(base_name)
}

pub open spec fn visitor_line(t: TreeTypeView, base_name: Seq<char>) -> Seq<char> {
    "    fn "@ + visit_name(t, base_name) + "<T>(&self, expr: &"@ + t.class_name
        + ") -> Result<T, CfgError>;\n"@
}

pub open spec fn impl_block(t: TreeTypeView, base_name: Seq<char>) -> Seq<char> {
    "impl "@ + t.class_name + " {\n"@
        + "    fn accept<T>(&self, visitor: dyn ExprVisitor) -> Result<T,CfgError> {\n"@
        + "        visitor."@ + visit_name(t, base_name) + "(self);\n"@ + "    }\n"@ + "}\n\n"@
}

pub open spec fn field_lines(fs: Seq<Seq<char>>) -> Seq<Seq<char>> {
    fs.map_values(|f: Seq<char>| field_line(f))
}

pub open spec fn enum_lines(ts: Seq<TreeTypeView>) -> Seq<Seq<char>> {
    ts.map_values(|t: TreeTypeView| enum_line(t))
}

pub open spec fn struct_blocks(ts: Seq<TreeTypeView>) -> Seq<Seq<char>> {
    ts.map_values(|t: TreeTypeView| struct_block(t))
}

pub open spec fn visitor_lines(ts: Seq<TreeTypeView>, base_name: Seq<char>) -> Seq<Seq<char>> {
    ts.map_values(|t: TreeTypeView| visitor_line(t, base_name))
}

pub open spec fn impl_blocks(ts: Seq<TreeTypeView>, base_name: Seq<char>) -> Seq<Seq<char>> {
    ts.map_values(|t: TreeTypeView| impl_block(t, base_name))
}

/// The generated module text for the node kinds `ts` of the tree `base_name`.
pub open spec fn ast_text(base_name: Seq<char>, ts: Seq<TreeTypeView>) -> Seq<char> {
    "use crate::error::*;\n"@ + "use crate::token::*;\n"@ + "\npub enum "@ + base_name + " {\n"@
        + join_all(enum_lines(ts)) + "}\n\n"@ + join_all(struct_blocks(ts))
        + "pub trait ExprVisitor<T> {\n"@ + join_all(visitor_lines(ts, base_name)) + "}\n\n"@
        + join_all(impl_blocks(ts, base_name))
}

/// Where the module for `base_name` goes under `out_dir`.
pub open spec fn ast_path(out_dir: Seq<char>, base_name: Seq<char>) -> Seq<char> {
    out_dir + "/"@ + base_name + ".rs"@
}

proof fn lemma_join_step(pre: Seq<char>, parts: Seq<Seq<char>>, i: int)
    requires
        0 <= i < parts.len(),
    ensures
        (pre + join_all(parts.take(i))) + parts[i] == pre + join_all(parts.take(i + 1)),
{
    assert(parts.take(i + 1).drop_last() =~= parts.take(i));
    assert((pre + join_all(parts.take(i))) + parts[i] =~= pre + (join_all(parts.take(i)) + parts[i]));
}

proof fn lemma_fields_none(x: Seq<Seq<char>>, y: Seq<Seq<char>>)
    requires
        fields_of(x) is None,
    ensures
        fields_of(x + y) is None,
    decreases y.len(),
{
    if y.len() == 0 {
        assert(x + y =~= x);
    } else {
        assert((x + y).drop_last() =~= x + y.drop_last());
        lemma_fields_none(x, y.drop_last());
    }
}

fn find_from(s: &Vec<char>, start: usize, c: char) -> (k: usize)
    requires
        start <= s@.len(),
    ensures
        k == find_char(s@, start as int, c),
{
    let mut k = start;
    while k < s.len() && s[k] != c
        invariant
            start <= k <= s@.len(),
            find_char(s@, start as int, c) == find_char(s@, k as int, c),
        decreases s@.len() - k,
    {
        k += 1;
    }
    k
}

fn field(arg: &String) -> (r: Option<String>)
    ensures
        match r {
            Some(f) => field_of(arg@) == Some(f@),
            None => field_of(arg@) is None,
        },
{
    let t = trimmed(arg.as_str());
    field_from_trimmed(&t)
}

/// Renders an already trimmed field description `Type name` as `name: Type`.
pub fn field_from_trimmed(t: &String) -> (r: Option<String>)
    ensures
        match r {
            Some(f) => field_from(t@) == Some(f@),
            None => field_from(t@) is None,
        },
{
    let tc = char_vec(t.as_str());
    let k = find_from(&tc, 0, ' ');
    if k >= tc.len() {
        return None;
    }
    let ty = text_between(&tc, 0, k);
    let mut out = text_between(&tc, k + 1, tc.len());
    out.append(": ");
    out.append(ty.as_str());
    Some(out)
}

fn tree_type(desc: &String, base_name: &String) -> (r: Option<TreeType>)
    ensures
        match r {
            Some(t) => tree_type_of(desc@, base_name@) == Some(t@),
            None => tree_type_of(desc@, base_name@) is None,
        },
{
    let cs = char_vec(desc.as_str());
    let colon = find_from(&cs, 0, ':');
    if colon >= cs.len() {
        return None;
    }
    let name = text_between(&cs, 0, colon);
    let args = text_between(&cs, colon + 1, cs.len());
    let ac = char_vec(args.as_str());
    let ghost a = ac@;
    let base_class_name = trimmed(name.as_str());
    let mut class_name = base_class_name.clone();
    class_name.append(base_name.as_str());
    let mut fields: Vec<String> = Vec::new();
    let ghost mut done: Seq<Seq<char>> = Seq::empty();
    assert(split_first(desc@, ':') == Some((name@, a)));
    let mut start: usize = 0;
    assert(done + pieces_from(a, 0, ',') =~= pieces_from(a, 0, ','));
    loop
        invariant_except_break
            0 <= start <= a.len(),
            pieces_from(a, 0, ',') == done + pieces_from(a, start as int, ','),
            fields_of(done) == Some(fields@.map_values(|f: String| f@)),
        invariant
            a == ac@,
            split_first(desc@, ':') == Some((name@, a)),
            base_class_name@ == trim_of(name@),
            class_name@ == trim_of(name@) + base_name@,
        ensures
            fields_of(pieces_from(a, 0, ',')) == Some(fields@.map_values(|f: String| f@)),
        decreases a.len() - start,
    {
        let k = find_from(&ac, start, ',');
        proof {
            lemma_find_char(a, start as int, ',');
        }
        let piece = text_between(&ac, start, k);
        let ghost next_done = done.push(piece@);
        assert(next_done.drop_last() =~= done);
        match field(&piece) {
            Some(f) => {
                let ghost old_fields = fields@;
                fields.push(f);
                assert(fields@.map_values(|f: String| f@) =~= old_fields.map_values(|f: String| f@).push(f@));
            },
            None => {
                proof {
                    if k < a.len() {
                        assert(done + pieces_from(a, start as int, ',') =~= next_done + pieces_from(a, k + 1, ','));
                        lemma_fields_none(next_done, pieces_from(a, k + 1, ','));
                    } else {
                        assert(done + pieces_from(a, start as int, ',') =~= next_done);
                    }
                }
                return None;
            },
        }
        if k >= ac.len() {
            assert(done + pieces_from(a, start as int, ',') =~= next_done);
            proof {
                done = next_done;
            }
            break;
        }
        assert(done + pieces_from(a, start as int, ',') =~= next_done + pieces_from(a, k + 1, ','));
        proof {
            done = next_done;
        }
        start = k + 1;
    }
    Some(TreeType { base_class_name, class_name, fields })
}

pub open spec fn texts_view(v: Seq<String>) -> Seq<Seq<char>> {
    v.map_values(|s: String| s@)
}

pub open spec fn trees_view(v: Seq<TreeType>) -> Seq<TreeTypeView> {
    v.map_values(|t: TreeType| t@)
}

proof fn lemma_tree_types_none(x: Seq<Seq<char>>, y: Seq<Seq<char>>, base_name: Seq<char>)
    requires
        tree_types_of(x, base_name) is None,
    ensures
        tree_types_of(x + y, base_name) is None,
    decreases y.len(),
{
    if y.len() == 0 {
        assert(x + y =~= x);
    } else {
        assert((x + y).drop_last() =~= x + y.drop_last());
        lemma_tree_types_none(x, y.drop_last(), base_name);
    }
}

fn enum_line_text(t: &TreeType) -> (r: String)
    ensures
        r@ == enum_line(t@),
{
    let mut r = String::from_str("    ");
    r.append(t.base_class_name.as_str());
    r.append("(");
    r.append(t.class_name.as_str());
    r.append(")\n");
    r
}

fn struct_block_text(t: &TreeType) -> (r: String)
    ensures
        r@ == struct_block(t@),
{
    let mut r = String::from_str("pub struct ");
    r.append(t.class_name.as_str());
    r.append(" {\n");
    let ghost pre = r@;
    let ghost parts = field_lines(t@.fields);
    let mut i: usize = 0;
    while i < t.fields.len()
        invariant
            i <= t.fields@.len(),
            parts == field_lines(t@.fields),
            r@ == pre + join_all(parts.take(i as int)),
        decreases t.fields@.len() - i,
    {
        proof {
            lemma_join_step(pre, parts, i as int);
        }
        let mut line = String::from_str("    ");
        line.append(t.fields[i].as_str());
        line.append(",\n");
        r.append(line.as_str());
        i += 1;
    }
    assert(parts.take(i as int) =~= parts);
    r.append("}\n\n");
    r
}

fn visit_name_text(t: &TreeType, lower_base: &String, base_name: &String) -> (r: String)
    requires
        lower_base@ == lower_of(base_name@),
    ensures
        r@ == visit_name(t@, base_name@),
{
    let mut r = String::from_str("visit_");
    let lower = lowercase(t.base_class_name.as_str());
    r.append(lower.as_str());
    r.append("_");
    r.append(lower_base.as_str());
    r
}

fn visitor_line_text(t: &TreeType, lower_base: &String, base_name: &String) -> (r: String)
    requires
        lower_base@ == lower_of(base_name@),
    ensures
        r@ == visitor_line(t@, base_name@),
{
    let mut r = String::from_str("    fn ");
    let name = visit_name_text(t, lower_base, base_name);
    r.append(name.as_str());
    r.append("<T>(&self, expr: &");
    r.append(t.class_name.as_str());
    r.append(") -> Result<T, CfgError>;\n");
    r
}

fn impl_block_text(t: &TreeType, lower_base: &String, base_name: &String) -> (r: String)
    requires
        lower_base@ == lower_of(base_name@),
    ensures
        r@ == impl_block(t@, base_name@),
{
    let mut r = String::from_str("impl ");
    r.append(t.class_name.as_str());
    r.append(" {\n");
    r.append("    fn accept<T>(&self, visitor: dyn ExprVisitor) -> Result<T,CfgError> {\n");
    r.append("        visitor.");
    let name = visit_name_text(t, lower_base, base_name);
    r.append(name.as_str());
    r.append("(self);\n");
    r.append("    }\n");
    r.append("}\n\n");
    r
}

/// The path and text of the module that declares the syntax tree `base_name`
/// with the node kinds that `types` describe.
///
/// A malformed description (no `:`, or a field without a space between its
/// type and name) gives `None` rather than a panic, and nothing is produced:
/// the caller decides what to do, and no half-written module results.
pub fn define_ast(out_dir: &String, base_name: &String, types: &Vec<String>) -> (r: Option<(String, String)>)
    ensures
        match r {
            Some((path, text)) => {
                &&& tree_types_of(texts_view(types@), base_name@) is Some
                &&& path@ == ast_path(out_dir@, base_name@)
                &&& text@ == ast_text(base_name@, tree_types_of(texts_view(types@), base_name@)->0)
            },
            None => tree_types_of(texts_view(types@), base_name@) is None,
        },
{
    let ghost descs = texts_view(types@);
    let mut ts: Vec<TreeType> = Vec::new();
    let mut k: usize = 0;
    assert(descs.take(0) =~= Seq::<Seq<char>>::empty());
    assert(trees_view(ts@) =~= Seq::<TreeTypeView>::empty());
    while k < types.len()
        invariant
            k <= types@.len(),
            descs == texts_view(types@),
            tree_types_of(descs.take(k as int), base_name@) == Some(trees_view(ts@)),
        decreases types@.len() - k,
    {
        assert(descs.take(k + 1).drop_last() =~= descs.take(k as int));
        match tree_type(&types[k], base_name) {
            Some(t) => {
                let ghost before = ts@;
                ts.push(t);
                assert(trees_view(ts@) =~= trees_view(before).push(t@));
            },
            None => {
                proof {
                    assert(descs.take(k + 1) + descs.skip(k + 1) =~= descs);
                    lemma_tree_types_none(descs.take(k + 1), descs.skip(k + 1), base_name@);
                }
                return None;
            },
        }
        k += 1;
    }
    assert(descs.take(k as int) =~= descs);
    let ghost tv = trees_view(ts@);
    let lower_base = lowercase(base_name.as_str());
    let mut path = out_dir.clone();
    path.append("/");
    path.append(base_name.as_str());
    path.append(".rs");
    let mut out = String::from_str("use crate::error::*;\n");
    out.append("use crate::token::*;\n");
    out.append("\npub enum ");
    out.append(base_name.as_str());
    out.append(" {\n");
    let ghost pre = out@;
    let ghost parts = enum_lines(tv);
    let mut i: usize = 0;
    while i < ts.len()
        invariant
            i <= ts@.len(),
            tv == trees_view(ts@),
            lower_base@ == lower_of(base_name@),
            parts == enum_lines(tv),
            out@ == pre + join_all(parts.take(i as int)),
        decreases ts@.len() - i,
    {
        proof {
            lemma_join_step(pre, parts, i as int);
        }
        let part = enum_line_text(&ts[i]);
        out.append(part.as_str());
        i += 1;
    }
    assert(parts.take(i as int) =~= parts);
    out.append("}\n\n");
    let ghost pre = out@;
    let ghost parts = struct_blocks(tv);
    let mut i: usize = 0;
    while i < ts.len()
        invariant
            i <= ts@.len(),
            tv == trees_view(ts@),
            lower_base@ == lower_of(base_name@),
            parts == struct_blocks(tv),
            out@ == pre + join_all(parts.take(i as int)),
        decreases ts@.len() - i,
    {
        proof {
            lemma_join_step(pre, parts, i as int);
        }
        let part = struct_block_text(&ts[i]);
        out.append(part.as_str());
        i += 1;
    }
    assert(parts.take(i as int) =~= parts);
    out.append("pub trait ExprVisitor<T> {\n");
    let ghost pre = out@;
    let ghost parts = visitor_lines(tv, base_name@);
    let mut i: usize = 0;
    while i < ts.len()
        invariant
            i <= ts@.len(),
            tv == trees_view(ts@),
            lower_base@ == lower_of(base_name@),
            parts == visitor_lines(tv, base_name@),
            out@ == pre + join_all(parts.take(i as int)),
        decreases ts@.len() - i,
    {
        proof {
            lemma_join_step(pre, parts, i as int);
        }
        let part = visitor_line_text(&ts[i], &lower_base, base_name);
        out.append(part.as_str());
        i += 1;
    }
    assert(parts.take(i as int) =~= parts);
    out.append("}\n\n");
    let ghost pre = out@;
    let ghost parts = impl_blocks(tv, base_name@);
    let mut i: usize = 0;
    while i < ts.len()
        invariant
            i <= ts@.len(),
            tv == trees_view(ts@),
            lower_base@ == lower_of(base_name@),
            parts == impl_blocks(tv, base_name@),
            out@ == pre + join_all(parts.take(i as int)),
        decreases ts@.len() - i,
    {
        proof {
            lemma_join_step(pre, parts, i as int);
        }
        let part = impl_block_text(&ts[i], &lower_base, base_name);
        out.append(part.as_str());
        i += 1;
    }
    assert(parts.take(i as int) =~= parts);
    Some((path, out))
}

/// The descriptions of the expression tree's node kinds.
pub open spec fn expr_descriptions() -> Seq<Seq<char>> {
    seq![
        "Binary     : Box<Expr> left, Token operator, Box<Expr> right"@,
        "Grouping   : Box<Expr> expression"@,
        "Literal    : Object value"@,
        "Unary      : Token operator, Box<Expr> right"@,
    ]
}

/// The path and text of the expression tree module under `output_dir`.
pub fn generate_ast(output_dir: String) -> (r: Option<(String, String)>)
    ensures
        match r {
            Some((path, text)) => {
                &&& tree_types_of(expr_descriptions(), "Expr"@) is Some
                &&& path@ == ast_path(output_dir@, "Expr"@)
                &&& text@ == ast_text("Expr"@, tree_types_of(expr_descriptions(), "Expr"@)->0)
            },
            None => tree_types_of(expr_descriptions(), "Expr"@) is None,
        },
{
    let types = vec![
        String::from_str("Binary     : Box<Expr> left, Token operator, Box<Expr> right"),
        String::from_str("Grouping   : Box<Expr> expression"),
        String::from_str("Literal    : Object value"),
        String::from_str("Unary      : Token operator, Box<Expr> right"),
    ];
    assert(texts_view(types@) =~= expr_descriptions());
    define_ast(&output_dir, &String::from_str("Expr"), &types)
}

} // verus!
