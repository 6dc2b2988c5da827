//! The usage export archive: finding the amount and cost CSV files in the ZIP
//! that the platform sends back.

use vstd::prelude::*;
use crate::text::chars_of;
use crate::validate::{starts_with, starts_with_exec};
use crate::state::text_opt;

verus! {

broadcast use vstd::string::group_string_axioms;

/// The number of entries of a ZIP archive, or the text of the error opening it.
pub uninterp spec fn zip_listing(bytes: Seq<u8>) -> Result<usize, Seq<char>>;

/// The name of entry `i` of a ZIP archive, or the text of the error reading it.
pub uninterp spec fn zip_name_at(bytes: Seq<u8>, i: usize) -> Result<Seq<char>, Seq<char>>;

/// The uncompressed content of entry `i` of a ZIP archive, or the text of the
/// error met opening the entry (`false`) or decompressing it (`true`).
pub uninterp spec fn zip_data_at(bytes: Seq<u8>, i: usize) -> Result<Seq<u8>, (bool, Seq<char>)>;

/// The text that bytes hold as UTF-8; `None` when they are not valid UTF-8.
pub open spec fn utf8_text(bytes: Seq<u8>) -> Option<Seq<char>> {
    if vstd::utf8::valid_utf8(bytes) {
        Some(vstd::utf8::decode_utf8(bytes))
    } else {
        None
    }
}

pub open spec fn text_result<T>(r: Result<T, String>) -> Result<T, Seq<char>> {
    match r {
        Ok(x) => Ok(x),
        Err(e) => Err(e@),
    }
}

/// zip: `ZipArchive::new` over the bytes, then `len`; its error as `Display` text.
/// Named `zip_listing` of the bytes; nothing more is stated.
#[verifier::external_body]
fn zip_entry_count(bytes: &[u8]) -> (r: Result<usize, String>)
    ensures
        text_result(r) == zip_listing(bytes@),
{
    match zip::ZipArchive::new(std::io::Cursor::new(bytes)) {
        Ok(a) => Ok(a.len()),
        Err(e) => Err(e.to_string()),
    }
}

/// zip: opens the archive again, `by_index(i)`, then the entry's `name`; any error
/// as `Display` text. Named `zip_name_at` of the bytes and index.
#[verifier::external_body]
fn zip_entry_name(bytes: &[u8], i: usize) -> (r: Result<String, String>)
    ensures
        match r {
            Ok(n) => zip_name_at(bytes@, i) == Ok::<Seq<char>, Seq<char>>(n@),
            Err(e) => zip_name_at(bytes@, i) == Err::<Seq<char>, Seq<char>>(e@),
        },
{
    let mut a = match zip::ZipArchive::new(std::io::Cursor::new(bytes)) {
        Ok(a) => a,
        Err(e) => return Err(e.to_string()),
    };
    let f = match a.by_index(i) {
        Ok(f) => f,
        Err(e) => return Err(e.to_string()),
    };
    match f.name() {
        Ok(n) => Ok(n.to_string()),
        Err(e) => Err(e.to_string()),
    }
}

/// zip: opens the archive again, `by_index(i)` (its error marked `false`), then
/// `read_to_end` of the entry (its error marked `true`). Named `zip_data_at`.
#[verifier::external_body]
fn zip_entry_bytes(bytes: &[u8], i: usize) -> (r: Result<Vec<u8>, (bool, String)>)
    ensures
        match r {
            Ok(d) => zip_data_at(bytes@, i) == Ok::<Seq<u8>, (bool, Seq<char>)>(d@),
            Err((stage, e)) => zip_data_at(bytes@, i) == Err::<Seq<u8>, (bool, Seq<char>)>((stage, e@)),
        },
{
    let mut a = match zip::ZipArchive::new(std::io::Cursor::new(bytes)) {
        Ok(a) => a,
        Err(e) => return Err((false, e.to_string())),
    };
    let mut f = match a.by_index(i) {
        Ok(f) => f,
        Err(e) => return Err((false, e.to_string())),
    };
    let mut buf = Vec::new();
    match std::io::Read::read_to_end(&mut f, &mut buf) {
        Ok(_) => Ok(buf),
        Err(e) => Err((true, e.to_string())),
    }
}

/// std `String::from_utf8`: the text the bytes encode, or `None` for bytes that are
/// not valid UTF-8 (the error is dropped).
#[verifier::external_body]
fn decode_utf8(bytes: Vec<u8>) -> (r: Option<String>)
    ensures
        text_opt(r) == utf8_text(bytes@),
{
    String::from_utf8(bytes).ok()
}

/// `s` ends with `suf`.
pub open spec fn ends_with(s: Seq<char>, suf: Seq<char>) -> bool {
    suf.len() <= s.len() && s.skip(s.len() - suf.len()) == suf
}

fn ends_with_exec(s: &[char], suf: &str) -> (r: bool)
    ensures
        r == ends_with(s@, suf@),
{
    let t = chars_of(suf);
    if t.len() > s.len() {
        return false;
    }
    let slen = s.len();
    let off = slen - t.len();
    let mut i: usize = 0;
    while i < t.len()
        invariant
            i <= t@.len(),
            t@ == suf@,
            slen == s@.len(),
            off == slen - t@.len(),
            t@.len() <= slen,
            forall|k: int| 0 <= k < i ==> s@[off + k] == t@[k],
        decreases t.len() - i,
    {
        if s[off + i] != t[i] {
            assert(s@.skip(off as int)[i as int] != suf@[i as int]);
            return false;
        }
        i = i + 1;
    }
    assert(s@.skip(off as int) =~= suf@);
    true
}

/// The text of entry `i`, or the error reading it.
pub open spec fn entry_text(bytes: Seq<u8>, i: usize) -> Result<Seq<char>, Seq<char>> {
    match zip_data_at(bytes, i) {
        Err((stage, e)) => if stage {
            Err("zip 解压失败: "@ + e)
        } else {
            Err("zip 条目读取失败: "@ + e)
        },
        Ok(d) => match utf8_text(d) {
            Some(t) => Ok(t),
            None => Err("CSV 编码非 UTF-8"@),
        },
    }
}

/// The first amount and cost CSV texts among entries `0..n`, or the first error.
pub open spec fn zip_scan(bytes: Seq<u8>, n: nat) -> Result<(Option<Seq<char>>, Option<Seq<char>>), Seq<char>>
    decreases n,
{
    if n == 0 {
        Ok((None, None))
    } else {
        match zip_scan(bytes, (n - 1) as nat) {
            Err(e) => Err(e),
            Ok((am, co)) => match zip_name_at(bytes, (n - 1) as usize) {
                Err(e) => Err("zip 读取失败: "@ + e),
                Ok(name) => if !ends_with(name, ".csv"@) {
                    Ok((am, co))
                } else if starts_with(name, "amount-"@) && am is None {
                    match entry_text(bytes, (n - 1) as usize) {
                        Err(e) => Err(e),
                        Ok(t) => Ok((Some(t), co)),
                    }
                } else if starts_with(name, "cost-"@) && co is None {
                    match entry_text(bytes, (n - 1) as usize) {
                        Err(e) => Err(e),
                        Ok(t) => Ok((am, Some(t))),
                    }
                } else {
                    Ok((am, co))
                },
            },
        }
    }
}

/// The amount and cost CSV texts of the export archive: the first `amount-*.csv`
/// and the first `cost-*.csv` entry, or the first error met.
pub open spec fn zip_csvs(bytes: Seq<u8>) -> Result<(Seq<char>, Seq<char>), Seq<char>> {
    match zip_listing(bytes) {
        Err(e) => Err("zip 解析失败: "@ + e),
        Ok(n) => match zip_scan(bytes, n as nat) {
            Err(e) => Err(e),
            Ok((am, co)) => match am {
                None => Err("zip 缺少 amount-*.csv"@),
                Some(a) => match co {
                    None => Err("zip 缺少 cost-*.csv"@),
                    Some(c) => Ok((a, c)),
                },
            },
        },
    }
}

fn read_entry(bytes: &[u8], i: usize) -> (r: Result<String, String>)
    ensures
        match r {
            Ok(t) => entry_text(bytes@, i) == Ok::<Seq<char>, Seq<char>>(t@),
            Err(e) => entry_text(bytes@, i) == Err::<Seq<char>, Seq<char>>(e@),
        },
{
    match zip_entry_bytes(bytes, i) {
        Err((stage, e)) => {
            let mut m = if stage {
                "zip 解压失败: ".to_string()
            } else {
                "zip 条目读取失败: ".to_string()
            };
            m.append(e.as_str());
            Err(m)
        },
        Ok(d) => match decode_utf8(d) {
            Some(t) => Ok(t),
            None => Err("CSV 编码非 UTF-8".to_string()),
        },
    }
}

/// Unpacks the export archive and reads its `amount-*.csv` and `cost-*.csv`.
pub fn read_zip_csvs(bytes: &[u8]) -> (r: Result<(String, String), String>)
    ensures
        match r {
            Ok((a, c)) => zip_csvs(bytes@) == Ok::<(Seq<char>, Seq<char>), Seq<char>>((a@, c@)),
            Err(e) => zip_csvs(bytes@) == Err::<(Seq<char>, Seq<char>), Seq<char>>(e@),
        },
{
    let n = match zip_entry_count(bytes) {
        Ok(n) => n,
        Err(e) => {
            let mut m = "zip 解析失败: ".to_string();
            m.append(e.as_str());
            return Err(m);
        },
    };
    let mut amount: Option<String> = None;
    let mut cost: Option<String> = None;
    let mut i: usize = 0;
    while i < n
        invariant
            i <= n,
            zip_listing(bytes@) == Ok::<usize, Seq<char>>(n),
            zip_scan(bytes@, i as nat) == Ok::<(Option<Seq<char>>, Option<Seq<char>>), Seq<char>>(
                (text_opt(amount), text_opt(cost)),
            ),
        decreases n - i,
    {
        let name = match zip_entry_name(bytes, i) {
            Ok(x) => x,
            Err(e) => {
                let mut m = "zip 读取失败: ".to_string();
                m.append(e.as_str());
                proof {
                    lemma_zip_scan_err(bytes@, (i + 1) as nat, n as nat);
                }
                return Err(m);
            },
        };
        let nc = chars_of(name.as_str());
        if ends_with_exec(&nc, ".csv") {
            if starts_with_exec(&nc, "amount-") && amount.is_none() {
                match read_entry(bytes, i) {
                    Ok(t) => {
                        amount = Some(t);
                    },
                    Err(e) => {
                        proof {
                            lemma_zip_scan_err(bytes@, (i + 1) as nat, n as nat);
                        }
                        return Err(e);
                    },
                }
            } else if starts_with_exec(&nc, "cost-") && cost.is_none() {
                match read_entry(bytes, i) {
                    Ok(t) => {
                        cost = Some(t);
                    },
                    Err(e) => {
                        proof {
                            lemma_zip_scan_err(bytes@, (i + 1) as nat, n as nat);
                        }
                        return Err(e);
                    },
                }
            }
        }
        i = i + 1;
    }
    match (amount, cost) {
        (Some(a), Some(c)) => Ok((a, c)),
        (None, _) => Err("zip 缺少 amount-*.csv".to_string()),
        (Some(_), None) => Err("zip 缺少 cost-*.csv".to_string()),
    }
}

proof fn lemma_zip_scan_err(bytes: Seq<u8>, m: nat, n: nat)
    requires
        m <= n,
        zip_scan(bytes, m) is Err,
    ensures
        zip_scan(bytes, n) == zip_scan(bytes, m),
    decreases n - m,
{
    if m < n {
        lemma_zip_scan_err(bytes, m, (n - 1) as nat);
    }
}

} // verus!
