//! Exporting registry keys to `.reg` files: the `reg.exe` arguments for a
//! direct export, and the PowerShell script that runs the export elevated
//! and waits for its exit code.

use crate::text::{chars_of, push_char, push_str};
use vstd::prelude::*;

verus! {

broadcast use vstd::string::group_string_axioms;

/// The key whose export backs up Explorer's settings.
pub fn explorer_registry_key() -> (r: &'static str)
    ensures
        r@ == "HKLM\\SOFTWARE\\Microsoft\\Windows\\CurrentVersion\\Explorer"@,
{
    "HKLM\\SOFTWARE\\Microsoft\\Windows\\CurrentVersion\\Explorer"
}

/// `s` with every `'` doubled.
pub open spec fn double_quotes(s: Seq<char>) -> Seq<char>
    decreases s.len(),
{
    if s.len() == 0 {
        seq![]
    } else {
        double_quotes(s.drop_last()) + (if s.last() == '\'' {
            seq!['\'', '\'']
        } else {
            seq![s.last()]
        })
    }
}

/// `s` as a single-quoted PowerShell string.
pub open spec fn ps_quoted(s: Seq<char>) -> Seq<char> {
    seq!['\''] + double_quotes(s) + seq!['\'']
}

/// `s` as a single-quoted PowerShell string (inner `'` doubled).
pub fn ps_single_quoted_segment(s: &str) -> (r: String)
    ensures
        r@ == ps_quoted(s@),
{
    let v = chars_of(s);
    let mut out = String::new();
    push_char(&mut out, '\'');
    let mut i: usize = 0;
    assert(v@.take(0) =~= Seq::<char>::empty());
    while i < v.len()
        invariant
            v@ == s@,
            i <= v@.len(),
            out@ == seq!['\''] + double_quotes(v@.take(i as int)),
        decreases v@.len() - i,
    {
        let c = v[i];
        if c == '\'' {
            push_char(&mut out, '\'');
            push_char(&mut out, '\'');
        } else {
            push_char(&mut out, c);
        }
        assert(v@.take(i + 1).drop_last() =~= v@.take(i as int));
        i = i + 1;
        assert(out@ =~= seq!['\''] + double_quotes(v@.take(i as int)));
    }
    push_char(&mut out, '\'');
    assert(v@.take(v@.len() as int) =~= v@);
    out
}

/// `reg.exe` arguments that export `key` to `output_file`, overwriting it.
pub fn reg_export_args(key: &str, output_file: &str) -> (r: Vec<String>)
    ensures
        r@.map_values(|a: String| a@) == seq!["EXPORT"@, key@, output_file@, "/y"@],
{
    let mut r: Vec<String> = Vec::new();
    r.push("EXPORT".to_string());
    r.push(key.to_string());
    r.push(output_file.to_string());
    r.push("/y".to_string());
    assert(r@.map_values(|a: String| a@) =~= seq!["EXPORT"@, key@, output_file@, "/y"@]);
    r
}

/// The PowerShell script that runs `reg.exe EXPORT` elevated, waits for it
/// and exits with its exit code (1 when there is none).
pub open spec fn elevated_script(key: Seq<char>, file: Seq<char>) -> Seq<char> {
    "$p = Start-Process -FilePath reg.exe -Verb RunAs -ArgumentList @("@ + ps_quoted("EXPORT"@) + ", "@
        + ps_quoted(key) + ", "@ + ps_quoted(file) + ", '/y') -Wait -PassThru; "@
        + "if ($null -eq $p -or $null -eq $p.ExitCode) { exit 1 }; exit $p.ExitCode"@
}

/// The script of the elevated export of `key` to `output_file`.
pub fn elevated_export_script(key: &str, output_file: &str) -> (r: String)
    ensures
        r@ == elevated_script(key@, output_file@),
{
    let mut out = String::new();
    push_str(&mut out, "$p = Start-Process -FilePath reg.exe -Verb RunAs -ArgumentList @(");
    let e = ps_single_quoted_segment("EXPORT");
    push_str(&mut out, e.as_str());
    push_str(&mut out, ", ");
    let k = ps_single_quoted_segment(key);
    push_str(&mut out, k.as_str());
    push_str(&mut out, ", ");
    let f = ps_single_quoted_segment(output_file);
    push_str(&mut out, f.as_str());
    push_str(&mut out, ", '/y') -Wait -PassThru; ");
    push_str(&mut out, "if ($null -eq $p -or $null -eq $p.ExitCode) { exit 1 }; exit $p.ExitCode");
    out
}

} // verus!
