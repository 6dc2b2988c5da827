//! Validation of presets: field-level checks with readable errors, the first failing
//! check in the order below deciding the error.

use vstd::prelude::*;
use crate::path::{ExtractSpec, PathSpec, is_key_char, is_key_char_exec, path_tokens, tokenize};
use crate::expr::{chars_eq, parse_expr, parse_expr_spec};
use crate::preset::{debug_str, Preset, FormField, EndpointSpec, UnavailableWhen, WidgetSpec, TableRowSpec, debug_text, has_key, has_key_exec, res_view, ref_check, template_refs_check, scoped_refs_check, check_ref_namespace, check_template_refs, check_scoped_template_refs};
use crate::text::{chars_of, copy_range, trim, trim_chars, string_of};
use crate::fmt::{digits_of, push_digits};

verus! {

broadcast use vstd::string::group_string_axioms;

// ------------------------------------------------------------------ combinators

/// `a`, and when it passes, `b`.
pub open spec fn then(a: Result<(), Seq<char>>, b: Result<(), Seq<char>>) -> Result<(), Seq<char>> {
    match a {
        Err(e) => Err(e),
        Ok(()) => b,
    }
}

/// The first failing check among `f(i) .. f(n - 1)`.
pub open spec fn first_error(i: int, n: int, f: spec_fn(int) -> Result<(), Seq<char>>) -> Result<
    (),
    Seq<char>,
>
    decreases n - i,
{
    if i >= n {
        Ok(())
    } else {
        match f(i) {
            Err(e) => Err(e),
            Ok(()) => first_error(i + 1, n, f),
        }
    }
}

/// `s` with `a..=z` in upper case (as `str::to_ascii_uppercase`).
pub open spec fn ascii_upper(s: Seq<char>) -> Seq<char> {
    s.map_values(|c: char| if 'a' <= c <= 'z' { ((c as int) - 32) as char } else { c })
}

pub open spec fn starts_with(s: Seq<char>, pre: Seq<char>) -> bool {
    pre.len() <= s.len() && s.take(pre.len() as int) == pre
}

pub open spec fn has_double_dash(s: Seq<char>) -> bool {
    exists|k: int| 0 <= k < s.len() - 1 && #[trigger] s[k] == '-' && s[k + 1] == '-'
}

pub open spec fn is_id_char(c: char) -> bool {
    ('a' <= c <= 'z') || ('0' <= c <= '9') || c == '-' || c == '_'
}

pub open spec fn is_http_url(u: Seq<char>) -> bool {
    starts_with(u, "https://"@) || starts_with(u, "http://"@)
}

pub open spec fn is_get_or_post(m: Seq<char>) -> bool {
    ascii_upper(m) == "GET"@ || ascii_upper(m) == "POST"@
}

/// `{:?}` of an `Option<String>`.
pub open spec fn debug_opt_text(o: Option<String>) -> Seq<char> {
    match o {
        Some(s) => "Some("@ + debug_text(s@) + ")"@,
        None => "None"@,
    }
}

// ------------------------------------------------------------------ sections

pub open spec fn header_check(p: Preset) -> Result<(), Seq<char>> {
    if p.schema_version != 2 {
        Err("schemaVersion 不支持: "@ + digits_of(p.schema_version as nat) + " (当前 2)"@)
    } else if p.id@.len() == 0 || !(forall|k: int| 0 <= k < p.id@.len() ==> is_id_char(
        #[trigger] p.id@[k],
    )) {
        Err("id 非法: "@ + debug_text(p.id@) + "(仅允许小写字母/数字/-/_)"@)
    } else if trim(p.name@).len() == 0 {
        Err("name 不能为空"@)
    } else if p.auth.kind@ != "bearer"@ {
        Err("auth.type 不支持: "@ + debug_text(p.auth.kind@) + "(当前仅支持 bearer)"@)
    } else if trim(p.auth.header@).len() == 0 {
        Err("auth.header 不能为空"@)
    } else {
        Ok(())
    }
}

/// Form field ids: non-empty, without "--", distinct.
pub open spec fn field_check(fs: Seq<FormField>, i: int) -> Result<(), Seq<char>> {
    let id = fs[i].id@;
    if trim(id).len() == 0 {
        Err("form 字段 id 不能为空"@)
    } else if has_double_dash(id) {
        Err("form 字段 id 不允许包含 --: "@ + id)
    } else if exists|j: int| 0 <= j < i && (#[trigger] fs[j]).id@ == id {
        Err("form 字段 id 重复: "@ + id)
    } else {
        Ok(())
    }
}

pub open spec fn fields_check(p: Preset) -> Result<(), Seq<char>> {
    first_error(0, p.form.fields@.len() as int, |i: int| field_check(p.form.fields@, i))
}

pub open spec fn endpoint_name_check(name: Seq<char>) -> Result<(), Seq<char>> {
    if !(forall|k: int| 0 <= k < name.len() ==> is_key_char(#[trigger] name[k])) || name.len()
        == 0 {
        Err("端点名非法: "@ + name + "(仅允许字母/数字/-/_)"@)
    } else if name == "balance"@ || name == "extras"@ || name == "meta"@ {
        Err("端点名与内置命名空间冲突: "@ + name)
    } else {
        Ok(())
    }
}

pub open spec fn endpoint_names_check(p: Preset) -> Result<(), Seq<char>> {
    first_error(0, p.endpoints@.len() as int, |i: int| endpoint_name_check(p.endpoints@[i].0@))
}

pub open spec fn balance_request_check(p: Preset) -> Result<(), Seq<char>> {
    if !is_get_or_post(p.balance.method@) {
        Err("balance.method 不支持: "@ + debug_text(p.balance.method@) + "(仅 GET/POST)"@)
    } else if !is_http_url(p.balance.url@) {
        Err("balance.url 必须以 http(s):// 开头: "@ + p.balance.url@)
    } else {
        Ok(())
    }
}

/// The candidate paths of an extraction spec are valid; an empty path is allowed
/// (only a default then) when `skip_empty`.
pub open spec fn path_item_check(paths: Seq<Seq<char>>, skip_empty: bool, label: Seq<char>, k: int) -> Result<(), Seq<char>> {
    let path = paths[k];
    if skip_empty && path.len() == 0 {
        Ok(())
    } else if path_tokens(path) is None {
        Err(label + " 路径语法非法: "@ + path)
    } else {
        Ok(())
    }
}

pub open spec fn paths_check(paths: Seq<Seq<char>>, skip_empty: bool, label: Seq<char>) -> Result<(), Seq<char>> {
    first_error(0, paths.len() as int, |k: int| path_item_check(paths, skip_empty, label, k))
}

pub open spec fn spec_paths_check(s: ExtractSpec, skip_empty: bool, label: Seq<char>) -> Result<(), Seq<char>> {
    paths_check(s.path.path_list(), skip_empty, label)
}

pub open spec fn opt_paths_check(s: Option<ExtractSpec>, label: Seq<char>) -> Result<(), Seq<char>> {
    match s {
        Some(x) => spec_paths_check(x, true, label),
        None => Ok(()),
    }
}

/// Paths of named extraction specs; `prefix` + name labels the error.
pub open spec fn named_paths_check(m: Seq<(String, ExtractSpec)>, prefix: Seq<char>) -> Result<
    (),
    Seq<char>,
> {
    first_error(0, m.len() as int, |i: int| spec_paths_check(m[i].1, true, prefix + m[i].0@))
}

pub open spec fn unavailable_check(u: Option<UnavailableWhen>, label: Seq<char>) -> Result<(), Seq<char>> {
    match u {
        Some(uw) => paths_check(uw.path.path_list(), false, label),
        None => Ok(()),
    }
}

/// Expressions of named derived values; `prefix` + name labels the error.
pub open spec fn computed_item_check(m: Seq<(String, String)>, prefix: Seq<char>, i: int) -> Result<(), Seq<char>> {
    match parse_expr_spec(m[i].1@) {
        Err(e) => Err(prefix + m[i].0@ + " 表达式非法: "@ + e),
        Ok(_) => Ok(()),
    }
}

pub open spec fn computed_check(m: Seq<(String, String)>, prefix: Seq<char>) -> Result<(), Seq<char>> {
    first_error(0, m.len() as int, |i: int| computed_item_check(m, prefix, i))
}

pub open spec fn balance_extract_check(p: Preset) -> Result<(), Seq<char>> {
    then(
        opt_paths_check(p.balance.extract.total, "total"@),
        then(
            opt_paths_check(p.balance.extract.top_up, "topUp"@),
            then(
                opt_paths_check(p.balance.extract.granted, "granted"@),
                then(
                    opt_paths_check(p.balance.extract.currency, "currency"@),
                    then(
                        named_paths_check(p.balance.extract.extras@, "extras."@),
                        then(
                            unavailable_check(p.balance.unavailable_when, "unavailableWhen"@),
                            computed_check(p.balance.computed@, "computed."@),
                        ),
                    ),
                ),
            ),
        ),
    )
}

pub open spec fn total_source_check(p: Preset) -> Result<(), Seq<char>> {
    if p.balance.extract.total is None && !has_key(p.balance.computed@, "total"@) {
        Err("余额总额无来源:extract.total 与 computed.total 至少提供一个"@)
    } else {
        Ok(())
    }
}

/// Whether the preset's form has field `id`; a preset without form fields has the
/// one default field `apiKey`.
pub open spec fn has_field(p: Preset, id: Seq<char>) -> bool {
    if p.form.fields@.len() == 0 {
        id == "apiKey"@
    } else {
        exists|k: int| 0 <= k < p.form.fields@.len() && (#[trigger] p.form.fields@[k]).id@ == id
    }
}

pub open spec fn endpoint_check(name: Seq<char>, ep: EndpointSpec, p: Preset) -> Result<(), Seq<char>> {
    let pre = "endpoints."@ + name;
    let access = match ep.fetcher {
        Some(f) => if trim(f@).len() == 0 {
            Err(pre + ".fetcher 不能为空"@)
        } else if !has_field(p, ep.auth_field@) {
            Err(pre + ".authField 未在 form 字段中定义: "@ + ep.auth_field@)
        } else {
            Ok(())
        },
        None => {
            let m = match ep.method {
                Some(s) => s@,
                None => Seq::empty(),
            };
            if !is_get_or_post(m) {
                Err(pre + ".method 不支持: "@ + debug_opt_text(ep.method) + "(仅 GET/POST,或用 fetcher)"@)
            } else if !(ep.url matches Some(u) && is_http_url(u@)) {
                Err(pre + ".url 必须以 http(s):// 开头"@)
            } else {
                Ok(())
            }
        },
    };
    then(
        access,
        then(
            named_paths_check(ep.extract@, pre + ".extract."@),
            then(
                computed_check(ep.computed@, pre + ".computed."@),
                unavailable_check(ep.unavailable_when, pre + ".unavailableWhen"@),
            ),
        ),
    )
}

pub open spec fn endpoints_check(p: Preset) -> Result<(), Seq<char>> {
    first_error(
        0,
        p.endpoints@.len() as int,
        |i: int| endpoint_check(p.endpoints@[i].0@, p.endpoints@[i].1, p),
    )
}

} // verus!

verus! {

pub open spec fn widget_kinds() -> Seq<Seq<char>> {
    seq![
        "balance"@,
        "kv"@,
        "bar"@,
        "ring"@,
        "ringshare"@,
        "ringseg"@,
        "bars"@,
        "stack"@,
        "hbar"@,
        "table"@,
        "note"@,
    ]
}

pub open spec fn is_hex_digit(c: char) -> bool {
    ('0' <= c <= '9') || ('a' <= c <= 'f') || ('A' <= c <= 'F')
}

/// `#rgb` or `#rrggbb`.
pub open spec fn is_hex_color(c: Seq<char>) -> bool {
    (c.len() == 7 || c.len() == 4) && c[0] == '#' && forall|k: int|
        1 <= k < c.len() ==> is_hex_digit(#[trigger] c[k])
}

/// `template.widgets[i`
pub open spec fn widget_prefix(i: int) -> Seq<char> {
    "template.widgets["@ + digits_of(i as nat)
}

pub open spec fn color_item_check(cs: Seq<String>, i: int, ci: int) -> Result<(), Seq<char>> {
    if is_hex_color(cs[ci]@) {
        Ok(())
    } else {
        Err(widget_prefix(i) + "].colors["@ + digits_of(ci as nat) + "] 非十六进制颜色: "@ + debug_text(cs[ci]@))
    }
}

pub open spec fn colors_check(w: WidgetSpec, i: int) -> Result<(), Seq<char>> {
    match w.colors {
        Some(cs) => if cs@.len() == 0 {
            Err(widget_prefix(i) + "].colors 不能为空数组"@)
        } else {
            first_error(0, cs@.len() as int, |ci: int| color_item_check(cs@, i, ci))
        },
        None => Ok(()),
    }
}

pub open spec fn cell_item_check(cs: Seq<String>, pre: Seq<char>, ci: int) -> Result<(), Seq<char>> {
    match scoped_refs_check(cs[ci]@) {
        Err(e) => Err(pre + "rowCells["@ + digits_of(ci as nat) + "]: "@ + e),
        Ok(()) => Ok(()),
    }
}

pub open spec fn row_item_check(rs: Seq<TableRowSpec>, pre: Seq<char>, ri: int) -> Result<(), Seq<char>> {
    if trim(rs[ri].name@).len() == 0 {
        Err(pre + "rows["@ + digits_of(ri as nat) + "].name 不能为空"@)
    } else if rs[ri].cells@.len() == 0 || rs[ri].cells@.len() > 3 {
        Err(pre + "rows["@ + digits_of(ri as nat) + "].cells 需 1-3 列(实际 "@ + digits_of(rs[ri].cells@.len()) + ")"@)
    } else {
        Ok(())
    }
}

pub open spec fn table_check(w: WidgetSpec, i: int, p: Preset) -> Result<(), Seq<char>> {
    let pre = widget_prefix(i) + "](table) "@;
    let cols = match w.columns {
        Some(cols) => if cols@.len() == 0 || cols@.len() > 3 {
            Err(pre + "columns 需 1-3 列(实际 "@ + digits_of(cols@.len()) + ")"@)
        } else {
            Ok(())
        },
        None => Ok(()),
    };
    let rows = match w.from {
        Some(f) => if w.rows is Some {
            Err(pre + "rows 与 from 不能同时声明"@)
        } else {
            match ref_check(f@, p) {
                Err(e) => Err(pre + "from: "@ + e),
                Ok(()) => {
                    let name = match w.row_name {
                        Some(t) => match scoped_refs_check(t@) {
                            Err(e) => Err(pre + "rowName: "@ + e),
                            Ok(()) => Ok(()),
                        },
                        None => Ok(()),
                    };
                    let cells = match w.row_cells {
                        None => Err(pre + "动态行(from)需声明 rowCells"@),
                        Some(cs) => if cs@.len() == 0 || cs@.len() > 3 {
                            Err(pre + "rowCells 需 1-3 个模板(实际 "@ + digits_of(cs@.len()) + ")"@)
                        } else {
                            first_error(0, cs@.len() as int, |ci: int| cell_item_check(cs@, pre, ci))
                        },
                    };
                    then(name, cells)
                },
            }
        },
        None => match w.rows {
            None => Err(pre + "缺少 rows(或声明 from 用动态行)"@),
            Some(rs) => if w.row_name is Some || w.row_cells is Some {
                Err(pre + "rowName/rowCells 仅动态行(from)可用"@)
            } else if rs@.len() == 0 || rs@.len() > 8 {
                Err(pre + "rows 需 1-8 行(实际 "@ + digits_of(rs@.len()) + ")"@)
            } else {
                first_error(0, rs@.len() as int, |ri: int| row_item_check(rs@, pre, ri))
            },
        },
    };
    then(cols, rows)
}

/// A reference field of a widget, checked against the namespaces.
pub open spec fn opt_ref_check(r: Option<String>, label: Seq<char>, p: Preset) -> Result<(), Seq<char>> {
    match r {
        Some(x) => match ref_check(x@, p) {
            Err(e) => Err(label + e),
            Ok(()) => Ok(()),
        },
        None => Ok(()),
    }
}

/// A value template field of a widget, checked against the namespaces.
pub open spec fn opt_template_check(t: Option<String>, label: Seq<char>, p: Preset) -> Result<(), Seq<char>> {
    match t {
        Some(x) => match template_refs_check(x@, p) {
            Err(e) => Err(label + e),
            Ok(()) => Ok(()),
        },
        None => Ok(()),
    }
}

pub open spec fn widget_check(w: WidgetSpec, i: int, p: Preset) -> Result<(), Seq<char>> {
    if !widget_kinds().contains(w.kind@) {
        Err(widget_prefix(i) + "].type 非法: "@ + debug_text(w.kind@)
            + "(支持 balance/kv/bar/ring/ringshare/ringseg/bars/stack/hbar/table/note)"@)
    } else {
        then(
            colors_check(w, i),
            then(
                if w.kind@ == "table"@ { table_check(w, i, p) } else { Ok(()) },
                then(
                    opt_ref_check(w.percent, widget_prefix(i) + "].percent: "@, p),
                    then(
                        opt_ref_check(w.series, widget_prefix(i) + "].series: "@, p),
                        then(
                            opt_ref_check(w.series_labels, widget_prefix(i) + "].seriesLabels: "@, p),
                            then(
                                opt_template_check(w.label, widget_prefix(i) + "].label: "@, p),
                                then(
                                    opt_template_check(w.value, widget_prefix(i) + "].value: "@, p),
                                    opt_template_check(w.hint, widget_prefix(i) + "].hint: "@, p),
                                ),
                            ),
                        ),
                    ),
                ),
            ),
        )
    }
}

pub open spec fn widgets_check(p: Preset) -> Result<(), Seq<char>> {
    first_error(
        0,
        p.template.widgets@.len() as int,
        |i: int| widget_check(p.template.widgets@[i], i, p),
    )
}

/// What `validate` gives: the first failing check, in the order of the sections.
pub open spec fn preset_check(p: Preset) -> Result<(), Seq<char>> {
    then(
        header_check(p),
        then(
            fields_check(p),
            then(
                endpoint_names_check(p),
                then(
                    balance_request_check(p),
                    then(
                        balance_extract_check(p),
                        then(total_source_check(p), then(endpoints_check(p), widgets_check(p))),
                    ),
                ),
            ),
        ),
    )
}

} // verus!

verus! {

// ------------------------------------------------------------------ executable helpers

pub(crate) fn upper_chars(s: &[char]) -> (r: Vec<char>)
    ensures
        r@ == ascii_upper(s@),
{
    let mut r: Vec<char> = Vec::new();
    let mut i: usize = 0;
    while i < s.len()
        invariant
            i <= s@.len(),
            r@ == ascii_upper(s@).take(i as int),
        decreases s.len() - i,
    {
        let c = s[i];
        let u = if 'a' <= c && c <= 'z' { ((c as u32) - 32) as u8 as char } else { c };
        r.push(u);
        i = i + 1;
        assert(r@ =~= ascii_upper(s@).take(i as int));
    }
    assert(ascii_upper(s@).take(s@.len() as int) =~= ascii_upper(s@));
    r
}

pub(crate) fn starts_with_exec(s: &[char], pre: &str) -> (r: bool)
    ensures
        r == starts_with(s@, pre@),
{
    let pc = chars_of(pre);
    if pc.len() > s.len() {
        return false;
    }
    let head = copy_range(s, 0, pc.len());
    assert(head@ =~= s@.take(pc@.len() as int));
    chars_eq(&head, &pc)
}

fn is_get_or_post_exec(m: &[char]) -> (r: bool)
    ensures
        r == is_get_or_post(m@),
{
    let u = upper_chars(m);
    let get = chars_of("GET");
    let post = chars_of("POST");
    chars_eq(&u, &get) || chars_eq(&u, &post)
}

fn is_http_url_exec(u: &[char]) -> (r: bool)
    ensures
        r == is_http_url(u@),
{
    starts_with_exec(u, "https://") || starts_with_exec(u, "http://")
}

pub(crate) fn text_eq(s: &str, lit: &str) -> (r: bool)
    ensures
        r == (s@ == lit@),
{
    let a = chars_of(s);
    let b = chars_of(lit);
    chars_eq(&a, &b)
}

pub(crate) fn is_blank(s: &str) -> (r: bool)
    ensures
        r == (trim(s@).len() == 0),
{
    let c = chars_of(s);
    let t = trim_chars(&c);
    t.len() == 0
}

/// `"a" + b` as an error.
fn err2(a: &str, b: &[char]) -> (r: Result<(), String>)
    ensures
        res_view(r) == Err::<(), Seq<char>>(a@ + b@),
{
    let mut e = a.to_string();
    crate::text::append_chars(&mut e, b);
    Err(e)
}

/// `"a" + b + "c"` as an error.
fn err3(a: &str, b: &[char], c: &str) -> (r: Result<(), String>)
    ensures
        res_view(r) == Err::<(), Seq<char>>(a@ + b@ + c@),
{
    let mut e = a.to_string();
    crate::text::append_chars(&mut e, b);
    e.append(c);
    Err(e)
}

// ------------------------------------------------------------------ sections, executable

fn header_check_exec(p: &Preset) -> (r: Result<(), String>)
    ensures
        res_view(r) == header_check(*p),
{
    if p.schema_version != 2 {
        let mut e = "schemaVersion 不支持: ".to_string();
        push_digits(&mut e, p.schema_version as u64);
        e.append(" (当前 2)");
        return Err(e);
    }
    let idc = chars_of(p.id.as_str());
    let mut ok = idc.len() > 0;
    let mut k: usize = 0;
    while k < idc.len()
        invariant
            k <= idc@.len(),
            idc@ == p.id@,
            ok == (idc@.len() > 0 && forall|j: int| 0 <= j < k ==> is_id_char(#[trigger] idc@[j])),
        decreases idc.len() - k,
    {
        let c = idc[k];
        if !(('a' <= c && c <= 'z') || ('0' <= c && c <= '9') || c == '-' || c == '_') {
            ok = false;
        }
        k = k + 1;
    }
    if !ok {
        let d = debug_str(p.id.as_str());
        let dc = chars_of(d.as_str());
        return err3("id 非法: ", &dc, "(仅允许小写字母/数字/-/_)");
    }
    if is_blank(p.name.as_str()) {
        return Err("name 不能为空".to_string());
    }
    if !text_eq(p.auth.kind.as_str(), "bearer") {
        let d = debug_str(p.auth.kind.as_str());
        let dc = chars_of(d.as_str());
        return err3("auth.type 不支持: ", &dc, "(当前仅支持 bearer)");
    }
    if is_blank(p.auth.header.as_str()) {
        return Err("auth.header 不能为空".to_string());
    }
    Ok(())
}

fn fields_check_exec(p: &Preset) -> (r: Result<(), String>)
    ensures
        res_view(r) == fields_check(*p),
{
    let fs = &p.form.fields;
    let n = fs.len();
    let ghost f = |i: int| field_check(p.form.fields@, i);
    let mut i: usize = 0;
    while i < n
        invariant
            n == fs@.len(),
            fs == &p.form.fields,
            i <= n,
            f == (|i: int| field_check(p.form.fields@, i)),
            fields_check(*p) == first_error(i as int, n as int, f),
        decreases n - i,
    {
        let idc = chars_of(fs[i].id.as_str());
        let t = trim_chars(&idc);
        if t.len() == 0 {
            return Err("form 字段 id 不能为空".to_string());
        }
        let mut dd = false;
        let mut k: usize = 0;
        while k < idc.len() && k + 1 < idc.len()
            invariant
                i < n,
                n == fs@.len(),
                idc@ == fs@[i as int].id@,
                k <= idc@.len(),
                dd == exists|j: int| 0 <= j < k && j < idc@.len() - 1 && #[trigger] idc@[j] == '-' && idc@[j + 1] == '-',
            decreases idc.len() - k,
        {
            if idc[k] == '-' && idc[k + 1] == '-' {
                dd = true;
            }
            k = k + 1;
        }
        if dd {
            return err2("form 字段 id 不允许包含 --: ", &idc);
        }
        let mut j: usize = 0;
        let mut dup = false;
        while j < i
            invariant
                j <= i,
                i < n,
                n == fs@.len(),
                idc@ == fs@[i as int].id@,
                dup == exists|q: int| 0 <= q < j && (#[trigger] fs@[q]).id@ == fs@[i as int].id@,
            decreases i - j,
        {
            let other = chars_of(fs[j].id.as_str());
            if chars_eq(&other, &idc) {
                dup = true;
            }
            j = j + 1;
        }
        if dup {
            return err2("form 字段 id 重复: ", &idc);
        }
        i = i + 1;
    }
    Ok(())
}

fn endpoint_names_check_exec(p: &Preset) -> (r: Result<(), String>)
    ensures
        res_view(r) == endpoint_names_check(*p),
{
    let n = p.endpoints.len();
    let ghost f = |i: int| endpoint_name_check(p.endpoints@[i].0@);
    let mut i: usize = 0;
    while i < n
        invariant
            n == p.endpoints@.len(),
            i <= n,
            f == (|i: int| endpoint_name_check(p.endpoints@[i].0@)),
            endpoint_names_check(*p) == first_error(i as int, n as int, f),
        decreases n - i,
    {
        let nc = chars_of(p.endpoints[i].0.as_str());
        let mut ok = nc.len() > 0;
        let mut k: usize = 0;
        while k < nc.len()
            invariant
                k <= nc@.len(),
                ok == (nc@.len() > 0 && forall|j: int| 0 <= j < k ==> is_key_char(#[trigger] nc@[j])),
            decreases nc.len() - k,
        {
            if !is_key_char_exec(nc[k]) {
                ok = false;
            }
            k = k + 1;
        }
        if !ok {
            return err3("端点名非法: ", &nc, "(仅允许字母/数字/-/_)");
        }
        let b = chars_of("balance");
        let x = chars_of("extras");
        let m = chars_of("meta");
        if chars_eq(&nc, &b) || chars_eq(&nc, &x) || chars_eq(&nc, &m) {
            return err2("端点名与内置命名空间冲突: ", &nc);
        }
        i = i + 1;
    }
    Ok(())
}

fn balance_request_check_exec(p: &Preset) -> (r: Result<(), String>)
    ensures
        res_view(r) == balance_request_check(*p),
{
    let m = chars_of(p.balance.method.as_str());
    if !is_get_or_post_exec(&m) {
        let d = debug_str(p.balance.method.as_str());
        let dc = chars_of(d.as_str());
        return err3("balance.method 不支持: ", &dc, "(仅 GET/POST)");
    }
    let u = chars_of(p.balance.url.as_str());
    if !is_http_url_exec(&u) {
        return err2("balance.url 必须以 http(s):// 开头: ", &u);
    }
    Ok(())
}

fn paths_check_exec(paths: &Vec<&str>, skip_empty: bool, label: &[char]) -> (r: Result<(), String>)
    ensures
        res_view(r) == paths_check(paths@.map_values(|s: &str| s@), skip_empty, label@),
{
    let ghost pv = paths@.map_values(|s: &str| s@);
    let ghost f = |k: int| path_item_check(pv, skip_empty, label@, k);
    let n = paths.len();
    let mut k: usize = 0;
    while k < n
        invariant
            n == paths@.len(),
            k <= n,
            pv == paths@.map_values(|s: &str| s@),
            f == (|k: int| path_item_check(pv, skip_empty, label@, k)),
            paths_check(pv, skip_empty, label@) == first_error(k as int, n as int, f),
        decreases n - k,
    {
        assert(pv[k as int] == paths@[k as int]@);
        let path = paths[k];
        let empty = path.unicode_len() == 0;
        if !(skip_empty && empty) {
            if tokenize(path).is_none() {
                let mut e = String::new();
                crate::text::append_chars(&mut e, label);
                e.append(" 路径语法非法: ");
                e.append(path);
                return Err(e);
            }
        }
        k = k + 1;
    }
    Ok(())
}

fn opt_paths_check_exec(s: &Option<ExtractSpec>, label: &str) -> (r: Result<(), String>)
    ensures
        res_view(r) == opt_paths_check(*s, label@),
{
    match s {
        Some(x) => {
            let ps = x.path.paths();
            let lc = chars_of(label);
            paths_check_exec(&ps, true, &lc)
        },
        None => Ok(()),
    }
}

fn named_paths_check_exec(m: &Vec<(String, ExtractSpec)>, prefix: &[char]) -> (r: Result<(), String>)
    ensures
        res_view(r) == named_paths_check(m@, prefix@),
{
    let ghost f = |i: int| spec_paths_check(m@[i].1, true, prefix@ + m@[i].0@);
    let n = m.len();
    let mut i: usize = 0;
    while i < n
        invariant
            n == m@.len(),
            i <= n,
            f == (|i: int| spec_paths_check(m@[i].1, true, prefix@ + m@[i].0@)),
            named_paths_check(m@, prefix@) == first_error(i as int, n as int, f),
        decreases n - i,
    {
        let kc = chars_of(m[i].0.as_str());
        let label = crate::text::concat_chars(prefix, &kc);
        let ps = m[i].1.path.paths();
        let r = paths_check_exec(&ps, true, &label);
        if r.is_err() {
            return r;
        }
        i = i + 1;
    }
    Ok(())
}

fn unavailable_check_exec(u: &Option<UnavailableWhen>, label: &[char]) -> (r: Result<(), String>)
    ensures
        res_view(r) == unavailable_check(*u, label@),
{
    match u {
        Some(uw) => {
            let ps = uw.path.paths();
            paths_check_exec(&ps, false, label)
        },
        None => Ok(()),
    }
}

fn computed_check_exec(m: &Vec<(String, String)>, prefix: &[char]) -> (r: Result<(), String>)
    ensures
        res_view(r) == computed_check(m@, prefix@),
{
    let ghost f = |i: int| computed_item_check(m@, prefix@, i);
    let n = m.len();
    let mut i: usize = 0;
    while i < n
        invariant
            n == m@.len(),
            i <= n,
            f == (|i: int| computed_item_check(m@, prefix@, i)),
            computed_check(m@, prefix@) == first_error(i as int, n as int, f),
        decreases n - i,
    {
        match parse_expr(m[i].1.as_str()) {
            Err(e) => {
                let mut msg = String::new();
                crate::text::append_chars(&mut msg, prefix);
                msg.append(m[i].0.as_str());
                msg.append(" 表达式非法: ");
                msg.append(e.as_str());
                return Err(msg);
            },
            Ok(_) => {},
        }
        i = i + 1;
    }
    Ok(())
}

fn balance_extract_check_exec(p: &Preset) -> (r: Result<(), String>)
    ensures
        res_view(r) == balance_extract_check(*p),
{
    let ex = &p.balance.extract;
    let r = opt_paths_check_exec(&ex.total, "total");
    if r.is_err() {
        return r;
    }
    let r = opt_paths_check_exec(&ex.top_up, "topUp");
    if r.is_err() {
        return r;
    }
    let r = opt_paths_check_exec(&ex.granted, "granted");
    if r.is_err() {
        return r;
    }
    let r = opt_paths_check_exec(&ex.currency, "currency");
    if r.is_err() {
        return r;
    }
    let pre = chars_of("extras.");
    let r = named_paths_check_exec(&ex.extras, &pre);
    if r.is_err() {
        return r;
    }
    let lab = chars_of("unavailableWhen");
    let r = unavailable_check_exec(&p.balance.unavailable_when, &lab);
    if r.is_err() {
        return r;
    }
    let pre = chars_of("computed.");
    computed_check_exec(&p.balance.computed, &pre)
}

fn total_source_check_exec(p: &Preset) -> (r: Result<(), String>)
    ensures
        res_view(r) == total_source_check(*p),
{
    let total = chars_of("total");
    if p.balance.extract.total.is_none() && !has_key_exec(&p.balance.computed, &total) {
        return Err("余额总额无来源:extract.total 与 computed.total 至少提供一个".to_string());
    }
    Ok(())
}

} // verus!

verus! {

fn has_field_exec(p: &Preset, id: &[char]) -> (r: bool)
    ensures
        r == has_field(*p, id@),
{
    let fs = &p.form.fields;
    if fs.len() == 0 {
        return crate::template::lit_eq(id, "apiKey");
    }
    let mut k: usize = 0;
    while k < fs.len()
        invariant
            fs == &p.form.fields,
            k <= fs@.len(),
            forall|j: int| 0 <= j < k ==> (#[trigger] fs@[j]).id@ != id@,
        decreases fs.len() - k,
    {
        let c = chars_of(fs[k].id.as_str());
        if chars_eq(&c, id) {
            return true;
        }
        k = k + 1;
    }
    false
}

fn debug_opt(o: &Option<String>) -> (r: Vec<char>)
    ensures
        r@ == debug_opt_text(*o),
{
    match o {
        Some(s) => {
            let mut t = "Some(".to_string();
            let d = debug_str(s.as_str());
            t.append(d.as_str());
            t.append(")");
            chars_of(t.as_str())
        },
        None => chars_of("None"),
    }
}

fn endpoint_check_exec(name: &String, ep: &EndpointSpec, p: &Preset) -> (r: Result<(), String>)
    ensures
        res_view(r) == endpoint_check(name@, *ep, *p),
{
    let ep_word = chars_of("endpoints.");
    let nc = chars_of(name.as_str());
    let pre = crate::text::concat_chars(&ep_word, &nc);
    match &ep.fetcher {
        Some(f) => {
            if is_blank(f.as_str()) {
                let mut e = String::new();
                crate::text::append_chars(&mut e, &pre);
                e.append(".fetcher 不能为空");
                return Err(e);
            }
            let af = chars_of(ep.auth_field.as_str());
            if !has_field_exec(p, &af) {
                let mut e = String::new();
                crate::text::append_chars(&mut e, &pre);
                e.append(".authField 未在 form 字段中定义: ");
                e.append(ep.auth_field.as_str());
                return Err(e);
            }
        },
        None => {
            let m = match &ep.method {
                Some(s) => chars_of(s.as_str()),
                None => Vec::new(),
            };
            if !is_get_or_post_exec(&m) {
                let d = debug_opt(&ep.method);
                let mut e = String::new();
                crate::text::append_chars(&mut e, &pre);
                e.append(".method 不支持: ");
                crate::text::append_chars(&mut e, &d);
                e.append("(仅 GET/POST,或用 fetcher)");
                return Err(e);
            }
            let url_ok = match &ep.url {
                Some(u) => {
                    let uc = chars_of(u.as_str());
                    is_http_url_exec(&uc)
                },
                None => false,
            };
            if !url_ok {
                let mut e = String::new();
                crate::text::append_chars(&mut e, &pre);
                e.append(".url 必须以 http(s):// 开头");
                return Err(e);
            }
        },
    }
    let x = chars_of(".extract.");
    let pre_x = crate::text::concat_chars(&pre, &x);
    let r = named_paths_check_exec(&ep.extract, &pre_x);
    if r.is_err() {
        return r;
    }
    let c = chars_of(".computed.");
    let pre_c = crate::text::concat_chars(&pre, &c);
    let r = computed_check_exec(&ep.computed, &pre_c);
    if r.is_err() {
        return r;
    }
    let u = chars_of(".unavailableWhen");
    let pre_u = crate::text::concat_chars(&pre, &u);
    unavailable_check_exec(&ep.unavailable_when, &pre_u)
}

fn endpoints_check_exec(p: &Preset) -> (r: Result<(), String>)
    ensures
        res_view(r) == endpoints_check(*p),
{
    let ghost f = |i: int| endpoint_check(p.endpoints@[i].0@, p.endpoints@[i].1, *p);
    let n = p.endpoints.len();
    let mut i: usize = 0;
    while i < n
        invariant
            n == p.endpoints@.len(),
            i <= n,
            f == (|i: int| endpoint_check(p.endpoints@[i].0@, p.endpoints@[i].1, *p)),
            endpoints_check(*p) == first_error(i as int, n as int, f),
        decreases n - i,
    {
        let r = endpoint_check_exec(&p.endpoints[i].0, &p.endpoints[i].1, p);
        if r.is_err() {
            return r;
        }
        i = i + 1;
    }
    Ok(())
}

} // verus!

verus! {

fn widget_prefix_exec(i: usize) -> (r: Vec<char>)
    ensures
        r@ == widget_prefix(i as int),
{
    let mut s = "template.widgets[".to_string();
    push_digits(&mut s, i as u64);
    chars_of(s.as_str())
}

/// `a + b + c + d` as an error, `a` and `c` given as characters.
fn err_pieces(a: &[char], b: &str, c: &[char], d: &str) -> (r: Result<(), String>)
    ensures
        res_view(r) == Err::<(), Seq<char>>(a@ + b@ + c@ + d@),
{
    let mut e = String::new();
    crate::text::append_chars(&mut e, a);
    e.append(b);
    crate::text::append_chars(&mut e, c);
    e.append(d);
    Err(e)
}

fn digits_chars(n: usize) -> (r: Vec<char>)
    ensures
        r@ == digits_of(n as nat),
{
    let mut s = String::new();
    push_digits(&mut s, n as u64);
    chars_of(s.as_str())
}

fn is_hex_color_exec(c: &str) -> (r: bool)
    ensures
        r == is_hex_color(c@),
{
    let cs = chars_of(c);
    let n = cs.len();
    if !((n == 7 || n == 4) && cs[0] == '#') {
        return false;
    }
    let mut k: usize = 1;
    while k < n
        invariant
            n == cs@.len(),
            cs@ == c@,
            1 <= k <= n,
            forall|j: int| 1 <= j < k ==> is_hex_digit(#[trigger] cs@[j]),
        decreases n - k,
    {
        let ch = cs[k];
        if !(('0' <= ch && ch <= '9') || ('a' <= ch && ch <= 'f') || ('A' <= ch && ch <= 'F')) {
            return false;
        }
        k = k + 1;
    }
    true
}

fn colors_check_exec(w: &WidgetSpec, i: usize) -> (r: Result<(), String>)
    ensures
        res_view(r) == colors_check(*w, i as int),
{
    match &w.colors {
        None => Ok(()),
        Some(cs) => {
            let pre = widget_prefix_exec(i);
            if cs.len() == 0 {
                let mut e = String::new();
                crate::text::append_chars(&mut e, &pre);
                e.append("].colors 不能为空数组");
                return Err(e);
            }
            let ghost f = |ci: int| color_item_check(cs@, i as int, ci);
            let n = cs.len();
            let mut ci: usize = 0;
            while ci < n
                invariant
                    n == cs@.len(),
                    n > 0,
                    ci <= n,
                    pre@ == widget_prefix(i as int),
                    f == (|ci: int| color_item_check(cs@, i as int, ci)),
                    colors_check(*w, i as int) == first_error(ci as int, n as int, f),
                decreases n - ci,
            {
                if !is_hex_color_exec(cs[ci].as_str()) {
                    let mut e = String::new();
                    crate::text::append_chars(&mut e, &pre);
                    e.append("].colors[");
                    push_digits(&mut e, ci as u64);
                    e.append("] 非十六进制颜色: ");
                    let d = debug_str(cs[ci].as_str());
                    e.append(d.as_str());
                    return Err(e);
                }
                ci = ci + 1;
            }
            Ok(())
        },
    }
}

#[verifier::loop_isolation(false)]
fn table_check_exec(w: &WidgetSpec, i: usize, p: &Preset) -> (r: Result<(), String>)
    ensures
        res_view(r) == table_check(*w, i as int, *p),
{
    let wp = widget_prefix_exec(i);
    let tb = chars_of("](table) ");
    let pre = crate::text::concat_chars(&wp, &tb);
    if let Some(cols) = &w.columns {
        if cols.len() == 0 || cols.len() > 3 {
            let d = digits_chars(cols.len());
            return err_pieces(&pre, "columns 需 1-3 列(实际 ", &d, ")");
        }
    }
    match &w.from {
        Some(f) => {
            if w.rows.is_some() {
                let mut e = String::new();
                crate::text::append_chars(&mut e, &pre);
                e.append("rows 与 from 不能同时声明");
                return Err(e);
            }
            match check_ref_namespace(f.as_str(), p) {
                Err(e0) => {
                    let mut e = String::new();
                    crate::text::append_chars(&mut e, &pre);
                    e.append("from: ");
                    e.append(e0.as_str());
                    return Err(e);
                },
                Ok(()) => {},
            }
            if let Some(t) = &w.row_name {
                match check_scoped_template_refs(t.as_str(), p) {
                    Err(e0) => {
                        let mut e = String::new();
                        crate::text::append_chars(&mut e, &pre);
                        e.append("rowName: ");
                        e.append(e0.as_str());
                        return Err(e);
                    },
                    Ok(()) => {},
                }
            }
            match &w.row_cells {
                None => {
                    let mut e = String::new();
                    crate::text::append_chars(&mut e, &pre);
                    e.append("动态行(from)需声明 rowCells");
                    Err(e)
                },
                Some(cs) => {
                    if cs.len() == 0 || cs.len() > 3 {
                        let d = digits_chars(cs.len());
                        return err_pieces(&pre, "rowCells 需 1-3 个模板(实际 ", &d, ")");
                    }
                    let ghost f = |ci: int| cell_item_check(cs@, pre@, ci);
                    let n = cs.len();
                    let mut ci: usize = 0;
                    while ci < n
                        invariant
                            n == cs@.len(),
                            ci <= n,
                            f == (|ci: int| cell_item_check(cs@, pre@, ci)),
                            first_error(0, n as int, f) == first_error(ci as int, n as int, f),
                        decreases n - ci,
                    {
                        match check_scoped_template_refs(cs[ci].as_str(), p) {
                            Err(e0) => {
                                let mut e = String::new();
                                crate::text::append_chars(&mut e, &pre);
                                e.append("rowCells[");
                                push_digits(&mut e, ci as u64);
                                e.append("]: ");
                                e.append(e0.as_str());
                                return Err(e);
                            },
                            Ok(()) => {},
                        }
                        ci = ci + 1;
                    }
                    Ok(())
                },
            }
        },
        None => match &w.rows {
            None => {
                let mut e = String::new();
                crate::text::append_chars(&mut e, &pre);
                e.append("缺少 rows(或声明 from 用动态行)");
                Err(e)
            },
            Some(rs) => {
                if w.row_name.is_some() || w.row_cells.is_some() {
                    let mut e = String::new();
                    crate::text::append_chars(&mut e, &pre);
                    e.append("rowName/rowCells 仅动态行(from)可用");
                    return Err(e);
                }
                if rs.len() == 0 || rs.len() > 8 {
                    let d = digits_chars(rs.len());
                    return err_pieces(&pre, "rows 需 1-8 行(实际 ", &d, ")");
                }
                let ghost f = |ri: int| row_item_check(rs@, pre@, ri);
                let n = rs.len();
                let mut ri: usize = 0;
                while ri < n
                    invariant
                        n == rs@.len(),
                        ri <= n,
                        f == (|ri: int| row_item_check(rs@, pre@, ri)),
                        first_error(0, n as int, f) == first_error(ri as int, n as int, f),
                    decreases n - ri,
                {
                    if is_blank(rs[ri].name.as_str()) {
                        let mut e = String::new();
                        crate::text::append_chars(&mut e, &pre);
                        e.append("rows[");
                        push_digits(&mut e, ri as u64);
                        e.append("].name 不能为空");
                        return Err(e);
                    }
                    let cl = rs[ri].cells.len();
                    if cl == 0 || cl > 3 {
                        let mut e = String::new();
                        crate::text::append_chars(&mut e, &pre);
                        e.append("rows[");
                        push_digits(&mut e, ri as u64);
                        e.append("].cells 需 1-3 列(实际 ");
                        push_digits(&mut e, cl as u64);
                        e.append(")");
                        return Err(e);
                    }
                    ri = ri + 1;
                }
                Ok(())
            },
        },
    }
}

fn opt_ref_check_exec(r: &Option<String>, label: &[char], p: &Preset) -> (res: Result<(), String>)
    ensures
        res_view(res) == opt_ref_check(*r, label@, *p),
{
    match r {
        Some(x) => match check_ref_namespace(x.as_str(), p) {
            Err(e0) => {
                let mut e = String::new();
                crate::text::append_chars(&mut e, label);
                e.append(e0.as_str());
                Err(e)
            },
            Ok(()) => Ok(()),
        },
        None => Ok(()),
    }
}

fn opt_template_check_exec(t: &Option<String>, label: &[char], p: &Preset) -> (res: Result<(), String>)
    ensures
        res_view(res) == opt_template_check(*t, label@, *p),
{
    match t {
        Some(x) => match check_template_refs(x.as_str(), p) {
            Err(e0) => {
                let mut e = String::new();
                crate::text::append_chars(&mut e, label);
                e.append(e0.as_str());
                Err(e)
            },
            Ok(()) => Ok(()),
        },
        None => Ok(()),
    }
}

fn widget_label(wp: &[char], tail: &str) -> (r: Vec<char>)
    ensures
        r@ == wp@ + tail@,
{
    let t = chars_of(tail);
    crate::text::concat_chars(wp, &t)
}

fn widget_check_exec(w: &WidgetSpec, i: usize, p: &Preset) -> (r: Result<(), String>)
    ensures
        res_view(r) == widget_check(*w, i as int, *p),
{
    let mut kinds: Vec<&str> = Vec::new();
    kinds.push("balance");
    kinds.push("kv");
    kinds.push("bar");
    kinds.push("ring");
    kinds.push("ringshare");
    kinds.push("ringseg");
    kinds.push("bars");
    kinds.push("stack");
    kinds.push("hbar");
    kinds.push("table");
    kinds.push("note");
    assert(kinds@.map_values(|s: &str| s@) =~= widget_kinds());
    let kc = chars_of(w.kind.as_str());
    let wp = widget_prefix_exec(i);
    if !crate::preset::seq_in(&kinds, &kc) {
        let d = debug_str(w.kind.as_str());
        let dc = chars_of(d.as_str());
        return err_pieces(&wp, "].type 非法: ", &dc, "(支持 balance/kv/bar/ring/ringshare/ringseg/bars/stack/hbar/table/note)");
    }
    let r = colors_check_exec(w, i);
    if r.is_err() {
        return r;
    }
    if text_eq(w.kind.as_str(), "table") {
        let r = table_check_exec(w, i, p);
        if r.is_err() {
            return r;
        }
    }
    let l = widget_label(&wp, "].percent: ");
    let r = opt_ref_check_exec(&w.percent, &l, p);
    if r.is_err() {
        return r;
    }
    let l = widget_label(&wp, "].series: ");
    let r = opt_ref_check_exec(&w.series, &l, p);
    if r.is_err() {
        return r;
    }
    let l = widget_label(&wp, "].seriesLabels: ");
    let r = opt_ref_check_exec(&w.series_labels, &l, p);
    if r.is_err() {
        return r;
    }
    let l = widget_label(&wp, "].label: ");
    let r = opt_template_check_exec(&w.label, &l, p);
    if r.is_err() {
        return r;
    }
    let l = widget_label(&wp, "].value: ");
    let r = opt_template_check_exec(&w.value, &l, p);
    if r.is_err() {
        return r;
    }
    let l = widget_label(&wp, "].hint: ");
    opt_template_check_exec(&w.hint, &l, p)
}

fn widgets_check_exec(p: &Preset) -> (r: Result<(), String>)
    ensures
        res_view(r) == widgets_check(*p),
{
    let ghost f = |i: int| widget_check(p.template.widgets@[i], i, *p);
    let n = p.template.widgets.len();
    let mut i: usize = 0;
    while i < n
        invariant
            n == p.template.widgets@.len(),
            i <= n,
            f == (|i: int| widget_check(p.template.widgets@[i], i, *p)),
            widgets_check(*p) == first_error(i as int, n as int, f),
        decreases n - i,
    {
        let r = widget_check_exec(&p.template.widgets[i], i, p);
        if r.is_err() {
            return r;
        }
        i = i + 1;
    }
    Ok(())
}

/// Validates a preset (schema version, id, form, endpoints, balance request, paths,
/// expressions, widget types and references); the error names the first problem.
pub fn validate(p: &Preset) -> (r: Result<(), String>)
    ensures
        res_view(r) == preset_check(*p),
        r is Ok <==> preset_check(*p) is Ok,
{
    let r = header_check_exec(p);
    if r.is_err() {
        return r;
    }
    let r = fields_check_exec(p);
    if r.is_err() {
        return r;
    }
    let r = endpoint_names_check_exec(p);
    if r.is_err() {
        return r;
    }
    let r = balance_request_check_exec(p);
    if r.is_err() {
        return r;
    }
    let r = balance_extract_check_exec(p);
    if r.is_err() {
        return r;
    }
    let r = total_source_check_exec(p);
    if r.is_err() {
        return r;
    }
    let r = endpoints_check_exec(p);
    if r.is_err() {
        return r;
    }
    widgets_check_exec(p)
}

} // verus!

verus! {

// ------------------------------------------------------------------ laws

proof fn lemma_first_error_some(lo: int, n: int, f: spec_fn(int) -> Result<(), Seq<char>>, i: int)
    requires
        lo <= i < n,
        f(i) is Err,
    ensures
        first_error(lo, n, f) is Err,
    decreases i - lo,
{
    if f(lo) is Ok {
        lemma_first_error_some(lo + 1, n, f, i);
    }
}

proof fn lemma_first_error_at(lo: int, n: int, f: spec_fn(int) -> Result<(), Seq<char>>, i: int)
    requires
        lo <= i < n,
        forall|k: int| lo <= k < i ==> (#[trigger] f(k)) is Ok,
        f(i) is Err,
    ensures
        first_error(lo, n, f) == f(i),
    decreases i - lo,
{
    if lo < i {
        lemma_first_error_at(lo + 1, n, f, i);
    }
}

/// A form with two fields of the same id is refused: the form check fails, and so
/// does validation wherever the preset's header is right.
pub proof fn lemma_duplicate_field_refused(p: Preset, i: int, j: int)
    requires
        0 <= j < i < p.form.fields@.len(),
        p.form.fields@[j].id@ == p.form.fields@[i].id@,
    ensures
        fields_check(p) is Err,
        header_check(p) is Ok ==> preset_check(p) is Err,
{
    let fs = p.form.fields@;
    let f = |k: int| field_check(fs, k);
    assert(f(i) is Err);
    lemma_first_error_some(0, fs.len() as int, f, i);
}

/// The field whose id repeats an earlier one is named: when the fields before it
/// have non-blank ids without `--`, each different from the ones before it, and its
/// own id is non-blank without `--`, validation (past a right header) fails with
/// `form 字段 id 重复: <id>`.
pub proof fn lemma_duplicate_field_message(p: Preset, i: int, j: int)
    requires
        0 <= j < i < p.form.fields@.len(),
        p.form.fields@[j].id@ == p.form.fields@[i].id@,
        trim(p.form.fields@[i].id@).len() > 0,
        !has_double_dash(p.form.fields@[i].id@),
        forall|k: int| 0 <= k < i ==> {
            &&& trim((#[trigger] p.form.fields@[k]).id@).len() > 0
            &&& !has_double_dash(p.form.fields@[k].id@)
            &&& forall|q: int| 0 <= q < k ==> p.form.fields@[q].id@ != p.form.fields@[k].id@
        },
        header_check(p) is Ok,
    ensures
        preset_check(p) == Err::<(), Seq<char>>("form 字段 id 重复: "@ + p.form.fields@[i].id@),
{
    let fs = p.form.fields@;
    let f = |k: int| field_check(fs, k);
    assert forall|k: int| 0 <= k < i implies (#[trigger] f(k)) is Ok by {
        assert(trim(fs[k].id@).len() > 0);
        assert(!has_double_dash(fs[k].id@));
        assert(!(exists|q: int| 0 <= q < k && (#[trigger] fs[q]).id@ == fs[k].id@));
    }
    assert(f(i) == Err::<(), Seq<char>>("form 字段 id 重复: "@ + fs[i].id@));
    lemma_first_error_at(0, fs.len() as int, f, i);
}

} // verus!
