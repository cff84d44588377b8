//! The runs that change the rule table, and the reading of `netsh` listings.

use crate::numeric::{lemma_digit_run, int_error_message, int_error_text, parse_i64_result, parsed_i64, range_parse_i64, range_parse_i64_result, IntParseError};
use crate::port_forwarding::cmd::{add_cmd, del_cmd, del_cmd_text, reset_cmd, rule_cmd_text, set_cmd};
use crate::port_forwarding::{PortForwarding, RuleView};
use crate::port_forwarding::ipv::Ipv;
use crate::text::{
    chars_of, is_ws, lemma_lead_word, lemma_lead_ws, lemma_trail_ws, line_bounds, lines, nat_to_dec, push_str, string_of_range,
    trim_end, trim_end_from, word_bounds, words,
};
use crate::utils::command::{CommandRun, RunCommandOptions};
use crate::utils::net::{check_ipv4_chars, is_ipv4, law_ipv4_octets, lemma_nat_to_dec_value, quad};
use vstd::prelude::*;

verus! {

broadcast use vstd::string::group_string_axioms;

/// Rule-table changes run hidden, elevated and echoed.
pub open spec fn admin_run(r: CommandRun, text: Seq<char>) -> bool {
    &&& r.command@ == text
    &&& r.options.hide_window
    &&& r.options.use_admin
    &&& r.options.print_command
}

fn admin(command: String) -> (r: CommandRun)
    ensures
        admin_run(r, command@),
{
    CommandRun { command, options: RunCommandOptions::new(true, true, true) }
}

/// The run that adds the rule.
pub fn add(forward: &PortForwarding) -> (r: CommandRun)
    ensures
        admin_run(r, rule_cmd_text("add"@, forward@)),
{
    admin(add_cmd(forward))
}

/// The run that deletes the rule listening on `address:port`.
pub fn del(address: &String, port: &i64) -> (r: CommandRun)
    ensures
        admin_run(r, del_cmd_text(address@, *port as int)),
{
    admin(del_cmd(address, port))
}

/// The run that removes every rule.
pub fn reset() -> (r: CommandRun)
    ensures
        admin_run(r, "netsh interface portproxy reset"@),
{
    admin(reset_cmd().to_string())
}

/// The run that updates a rule.
pub fn set(port: &PortForwarding) -> (r: CommandRun)
    ensures
        admin_run(r, rule_cmd_text("set"@, port@)),
{
    admin(set_cmd(port))
}

/// The rule a listing row stands for: four whitespace-separated words, two
/// IPv4 addresses each followed by a port that `i64` parses, both ports in
/// `1..=65535`. Headers and rows with bad ports stand for none.
pub open spec fn row_rule(line: Seq<char>) -> Option<RuleView> {
    let w = words(trim_end(line));
    if w.len() == 4 && is_ipv4(w[0]) && is_ipv4(w[2]) && parsed_i64(w[1]) is Some && parsed_i64(w[3]) is Some {
        let lp = parsed_i64(w[1]).unwrap();
        let cp = parsed_i64(w[3]).unwrap();
        if 1 <= lp <= 65535 && 1 <= cp <= 65535 {
            Some((w[0], lp, w[2], cp))
        } else {
            None
        }
    } else {
        None
    }
}

/// The rules of the rows, in row order.
pub open spec fn rules_of(rows: Seq<Seq<char>>) -> Seq<RuleView>
    decreases rows.len(),
{
    if rows.len() == 0 {
        seq![]
    } else {
        let r = rules_of(rows.drop_last());
        match row_rule(rows.last()) {
            Some(x) => r.push(x),
            None => r,
        }
    }
}

pub open spec fn rules_view(v: Seq<PortForwarding>) -> Seq<RuleView> {
    v.map_values(|p: PortForwarding| p@)
}

/// The rule of the row `v[s..e]`, if it stands for one.
fn row_at(v: &Vec<char>, s: usize, e: usize) -> (r: Option<PortForwarding>)
    requires
        s <= e <= v.len(),
    ensures
        match row_rule(v@.subrange(s as int, e as int)) {
            Some(x) => r is Some && r.unwrap()@ == x,
            None => r is None,
        },
{
    let ghost line = v@.subrange(s as int, e as int);
    let e2 = trim_end_from(v, s, e);
    assert(trim_end(line) =~= v@.subrange(s as int, e2 as int));
    let wb = word_bounds(v, s, e2);
    if wb.len() != 4 {
        return None;
    }
    let (a0, b0) = wb[0];
    let (a1, b1) = wb[1];
    let (a2, b2) = wb[2];
    let (a3, b3) = wb[3];
    assert(wb@[0] == (a0, b0) && wb@[1] == (a1, b1) && wb@[2] == (a2, b2) && wb@[3] == (a3, b3));
    let listen_address = string_of_range(v, a0, b0);
    let connect_address = string_of_range(v, a2, b2);
    let la = chars_of(listen_address.as_str());
    let ca = chars_of(connect_address.as_str());
    let listen_ok = check_ipv4_chars(&la);
    let connect_ok = check_ipv4_chars(&ca);
    let listen_port = range_parse_i64(v, a1, b1);
    let connect_port = range_parse_i64(v, a3, b3);
    if !(listen_ok && connect_ok) {
        return None;
    }
    match (listen_port, connect_port) {
        (Some(lp), Some(cp)) => {
            if !(1 <= lp && lp <= 65535) || !(1 <= cp && cp <= 65535) {
                return None;
            }
            Some(PortForwarding {
                listen: Ipv { address: listen_address, port: lp },
                connect: Ipv { address: connect_address, port: cp },
            })
        },
        _ => None,
    }
}

/// The rules listed in the output of `netsh interface portproxy show v4tov4`.
pub fn from_cmd_load_port_forwarding(cmd_string: &String) -> (r: Vec<PortForwarding>)
    ensures
        rules_view(r@) == rules_of(lines(cmd_string@)),
{
    let v = chars_of(cmd_string.as_str());
    let lb = line_bounds(&v);
    let ghost ls = lines(v@);
    let mut res: Vec<PortForwarding> = Vec::new();
    let mut k: usize = 0;
    assert(ls.take(0) =~= Seq::<Seq<char>>::empty());
    assert(rules_view(res@) =~= Seq::<RuleView>::empty());
    while k < lb.len()
        invariant
            v@ == cmd_string@,
            ls == lines(v@),
            k <= lb@.len() == ls.len(),
            forall|j: int|
                0 <= j < lb@.len() ==> {
                    &&& (#[trigger] lb@[j]).0 <= lb@[j].1 <= v.len()
                    &&& v@.subrange(lb@[j].0 as int, lb@[j].1 as int) == ls[j]
                },
            rules_view(res@) == rules_of(ls.take(k as int)),
        decreases lb@.len() - k,
    {
        let (s, e) = lb[k];
        assert(lb@[k as int] == (s, e));
        let row = row_at(&v, s, e);
        let ghost pre = ls.take(k + 1);
        assert(pre.drop_last() =~= ls.take(k as int));
        assert(pre.last() == ls[k as int]);
        match row {
            Some(p) => {
                let ghost before = res@;
                res.push(p);
                assert(rules_view(res@) =~= rules_view(before).push(p@));
            },
            None => {},
        }
        k = k + 1;
    }
    assert(ls.take(ls.len() as int) =~= ls);
    res
}

/// `i64` parses the decimal spelling of `n` as `n`, when it fits.
proof fn lemma_parsed_i64_dec(n: nat)
    ensures
        parsed_i64(nat_to_dec(n)) == (if n <= 9223372036854775807 { Some(n as int) } else { None::<int> }),
{
    let d = nat_to_dec(n);
    lemma_nat_to_dec_value(n);
    assert(d[0] != '-' && d[0] != '+');
    lemma_digit_run(d, d.len() as int);
    assert(d.take(d.len() as int) =~= d);
}

/// No character of `s` is white space.
pub open spec fn no_ws(s: Seq<char>) -> bool {
    forall|i: int| 0 <= i < s.len() ==> !is_ws(#[trigger] s[i])
}

/// Every character of `s` is white space.
pub open spec fn only_ws(s: Seq<char>) -> bool {
    forall|i: int| 0 <= i < s.len() ==> is_ws(#[trigger] s[i])
}

/// White space, a word, then text that is empty or opens with white space:
/// the word is the first of its words.
proof fn lemma_words_cons(p: Seq<char>, w: Seq<char>, r: Seq<char>)
    requires
        only_ws(p),
        w.len() > 0,
        no_ws(w),
        r.len() == 0 || is_ws(r[0]),
    ensures
        words(p + w + r) == seq![w] + words(r),
{
    let s = p + w + r;
    assert forall|j: int| 0 <= j < p.len() implies is_ws(#[trigger] s[j]) by {
        assert(s[j] == p[j]);
    }
    assert(s[p.len() as int] == w[0]);
    lemma_lead_ws(s, p.len() as int);
    let t = s.skip(p.len() as int);
    assert(t =~= w + r);
    assert forall|j: int| 0 <= j < w.len() implies !is_ws(#[trigger] t[j]) by {
        assert(t[j] == w[j]);
    }
    if r.len() > 0 {
        assert(t[w.len() as int] == r[0]);
    }
    lemma_lead_word(t, w.len() as int);
    assert(t.take(w.len() as int) =~= w);
    assert(t.skip(w.len() as int) =~= r);
}

/// The row `<ws>a<ws>p<ws>b<ws>q<ws>` of a listing.
pub open spec fn listing_row(
    pre: Seq<char>,
    a: Seq<char>,
    s1: Seq<char>,
    p: Seq<char>,
    s2: Seq<char>,
    b: Seq<char>,
    s3: Seq<char>,
    q: Seq<char>,
    post: Seq<char>,
) -> Seq<char> {
    pre + a + s1 + p + s2 + b + s3 + q + post
}

/// A listing row of two dotted-quad addresses, each followed by a port, all
/// separated by any white space (and white space, `\r` included, around
/// them), stands for the rule from the first address and port to the second
/// exactly when both ports lie in `1..=65535`; any such port, `40005` as
/// well as `22`, is kept. Among the rows of a listing, such a row adds its
/// rule after those of the rows before it.
pub proof fn law_listing_row_rule(
    a: (nat, nat, nat, nat),
    b: (nat, nat, nat, nat),
    lp: nat,
    cp: nat,
    pre: Seq<char>,
    s1: Seq<char>,
    s2: Seq<char>,
    s3: Seq<char>,
    post: Seq<char>,
    rows: Seq<Seq<char>>,
)
    requires
        a.0 <= 255 && a.1 <= 255 && a.2 <= 255 && a.3 <= 255,
        b.0 <= 255 && b.1 <= 255 && b.2 <= 255 && b.3 <= 255,
        only_ws(pre),
        only_ws(post),
        only_ws(s1) && s1.len() > 0,
        only_ws(s2) && s2.len() > 0,
        only_ws(s3) && s3.len() > 0,
    ensures
        ({
            let la = quad(a.0, a.1, a.2, a.3);
            let ca = quad(b.0, b.1, b.2, b.3);
            let row = listing_row(pre, la, s1, nat_to_dec(lp), s2, ca, s3, nat_to_dec(cp), post);
            &&& row_rule(row) == (if 1 <= lp <= 65535 && 1 <= cp <= 65535 {
                Some::<RuleView>((la, lp as int, ca, cp as int))
            } else {
                None::<RuleView>
            })
            &&& 1 <= lp <= 65535 && 1 <= cp <= 65535 ==> rules_of(rows.push(row)) == rules_of(rows).push(
                (la, lp as int, ca, cp as int),
            )
        }),
{
    let la = quad(a.0, a.1, a.2, a.3);
    let ca = quad(b.0, b.1, b.2, b.3);
    let p = nat_to_dec(lp);
    let q = nat_to_dec(cp);
    let row = listing_row(pre, la, s1, p, s2, ca, s3, q, post);
    law_ipv4_octets(a.0, a.1, a.2, a.3);
    law_ipv4_octets(b.0, b.1, b.2, b.3);
    lemma_quad_no_ws(a.0, a.1, a.2, a.3);
    lemma_quad_no_ws(b.0, b.1, b.2, b.3);
    lemma_nat_to_dec_value(lp);
    lemma_nat_to_dec_value(cp);
    lemma_parsed_i64_dec(lp);
    lemma_parsed_i64_dec(cp);
    lemma_row_words(pre, la, s1, p, s2, ca, s3, q, post);
    assert(rows.push(row).drop_last() =~= rows);
}

/// The words of a listing row, white space trimmed from its end, are its
/// four words.
#[verifier::rlimit(40)]
proof fn lemma_row_words(
    pre: Seq<char>,
    la: Seq<char>,
    s1: Seq<char>,
    p: Seq<char>,
    s2: Seq<char>,
    ca: Seq<char>,
    s3: Seq<char>,
    q: Seq<char>,
    post: Seq<char>,
)
    requires
        only_ws(pre),
        only_ws(post),
        only_ws(s1) && s1.len() > 0,
        only_ws(s2) && s2.len() > 0,
        only_ws(s3) && s3.len() > 0,
        no_ws(la) && la.len() > 0,
        no_ws(p) && p.len() > 0,
        no_ws(ca) && ca.len() > 0,
        no_ws(q) && q.len() > 0,
    ensures
        words(trim_end(listing_row(pre, la, s1, p, s2, ca, s3, q, post))) == seq![la, p, ca, q],
{
    let row = listing_row(pre, la, s1, p, s2, ca, s3, q, post);
    let body = pre + la + s1 + p + s2 + ca + s3 + q;
    assert(body.subrange(body.len() - q.len(), body.len() as int) =~= q);
    lemma_trim_end_of(body, post, q);
    assert(row =~= body + post);
    let r3 = s3 + q;
    let r2 = s2 + ca + r3;
    let r1 = s1 + p + r2;
    lemma_words_cons(s3, q, Seq::<char>::empty());
    assert(s3 + q + Seq::<char>::empty() =~= r3);
    assert(words(Seq::<char>::empty()) =~= Seq::<Seq<char>>::empty());
    lemma_words_cons(s2, ca, r3);
    assert(r3[0] == s3[0]);
    lemma_words_cons(s1, p, r2);
    assert(r2[0] == s2[0]);
    lemma_words_cons(pre, la, r1);
    assert(r1[0] == s1[0]);
    assert(pre + la + r1 =~= body);
    assert(words(body) =~= seq![la, p, ca, q]);
}

/// Text that ends in a word, then white space: trimming its end leaves the
/// text before the white space.
proof fn lemma_trim_end_of(body: Seq<char>, post: Seq<char>, q: Seq<char>)
    requires
        only_ws(post),
        q.len() > 0,
        no_ws(q),
        body.len() >= q.len(),
        body.subrange(body.len() - q.len(), body.len() as int) == q,
    ensures
        trim_end(body + post) == body,
{
    let row = body + post;
    assert forall|j: int| row.len() - post.len() <= j < row.len() implies is_ws(#[trigger] row[j]) by {
        assert(row[j] == post[j - body.len()]);
    }
    assert(row[row.len() - post.len() - 1] == body.subrange(body.len() - q.len(), body.len() as int)[q.len() - 1]);
    lemma_trail_ws(row, post.len() as int);
    assert(trim_end(row) =~= body);
}

/// A dotted quad holds no white space.
proof fn lemma_quad_no_ws(a: nat, b: nat, c: nat, d: nat)
    ensures
        no_ws(quad(a, b, c, d)),
        quad(a, b, c, d).len() > 0,
{
    lemma_nat_to_dec_value(a);
    lemma_nat_to_dec_value(b);
    lemma_nat_to_dec_value(c);
    lemma_nat_to_dec_value(d);
    let x = quad(a, b, c, d);
    let (da, db, dc, dd) = (nat_to_dec(a), nat_to_dec(b), nat_to_dec(c), nat_to_dec(d));
    assert forall|i: int| 0 <= i < x.len() implies !is_ws(#[trigger] x[i]) by {
        let n1 = da.len() as int;
        let n2 = n1 + 1 + db.len();
        let n3 = n2 + 1 + dc.len();
        if i < n1 {
            assert(x[i] == da[i]);
        } else if i == n1 || i == n2 || i == n3 {
            assert(x[i] == '.');
        } else if i < n2 {
            assert(x[i] == db[i - n1 - 1]);
        } else if i < n3 {
            assert(x[i] == dc[i - n2 - 1]);
        } else {
            assert(x[i] == dd[i - n3 - 1]);
        }
    }
}

/// What `from_cmd_data` gives for four words, or for some other count.
pub open spec fn from_data_spec(data: Seq<Seq<char>>) -> Result<RuleView, Seq<char>> {
    if data.len() != 4 {
        Err("需传入4个数据"@)
    } else {
        match parse_i64_result(data[1]) {
            Err(e) => Err("listen port: "@ + int_error_text(e)),
            Ok(lp) => match parse_i64_result(data[3]) {
                Err(e) => Err("connect port: "@ + int_error_text(e)),
                Ok(cp) => Ok((data[0], lp, data[2], cp)),
            },
        }
    }
}

/// A rule from its four words: listen address, listen port, connect
/// address, connect port (addresses are taken as they are).
pub fn from_cmd_data(data: Vec<String>) -> (r: Result<PortForwarding, String>)
    ensures
        match from_data_spec(data@.map_values(|s: String| s@)) {
            Ok(x) => r is Ok && r.unwrap()@ == x,
            Err(m) => r is Err && r->Err_0@ == m,
        },
{
    let ghost dv = data@.map_values(|s: String| s@);
    if data.len() != 4 {
        return Err("需传入4个数据".to_string());
    }
    let lv = chars_of(data[1].as_str());
    let listen_port = match range_parse_i64_result(&lv, 0, lv.len()) {
        Ok(x) => x,
        Err(e) => {
            assert(lv@.subrange(0, lv@.len() as int) =~= dv[1]);
            let mut m = String::new();
            push_str(&mut m, "listen port: ");
            push_str(&mut m, int_error_message(e));
            return Err(m);
        },
    };
    assert(lv@.subrange(0, lv@.len() as int) =~= dv[1]);
    let cv = chars_of(data[3].as_str());
    let connect_port = match range_parse_i64_result(&cv, 0, cv.len()) {
        Ok(x) => x,
        Err(e) => {
            assert(cv@.subrange(0, cv@.len() as int) =~= dv[3]);
            let mut m = String::new();
            push_str(&mut m, "connect port: ");
            push_str(&mut m, int_error_message(e));
            return Err(m);
        },
    };
    assert(cv@.subrange(0, cv@.len() as int) =~= dv[3]);
    Ok(PortForwarding {
        listen: Ipv { address: data[0].clone(), port: listen_port },
        connect: Ipv { address: data[2].clone(), port: connect_port },
    })
}

} // verus!
