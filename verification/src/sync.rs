//! The computed parts of a sync operation: where to sync, the transfer
//! tool's filter rules, the remote post-sync command line, and the reading of
//! the transfer tool's version line. The subprocesses themselves are the
//! caller's concern.

use vstd::prelude::*;

use crate::text::{all_digits, dec_val, digit_val, is_digit, str_chars};

verus! {

/// The directory a sync lands in: an absolute remote directory is used
/// verbatim, a relative one is resolved under the remote home directory.
pub open spec fn resolved_dir(home: Seq<char>, dir: Seq<char>) -> Seq<char> {
    if dir.len() > 0 && dir[0] == '/' {
        dir
    } else {
        home + seq!['/'] + dir
    }
}

/// Resolves the remote directory against the remote home directory.
pub fn resolve_remote_dir(remote_home: &str, remote_dir: &str) -> (r: String)
    ensures
        r@ == resolved_dir(remote_home@, remote_dir@),
{
    let dc = str_chars(remote_dir);
    if dc.len() > 0 && dc[0] == '/' {
        return remote_dir.to_owned();
    }
    let mut out = remote_home.to_owned();
    out.append("/");
    out.append(remote_dir);
    proof {
        reveal_strlit("/");
        assert("/"@ =~= seq!['/']);
        assert(out@ =~= resolved_dir(remote_home@, remote_dir@));
    }
    out
}

/// The transfer destination: `host:directory`.
pub open spec fn destination_of(host: Seq<char>, dir: Seq<char>) -> Seq<char> {
    host + seq![':'] + dir
}

pub fn build_destination(host: &str, dir: &str) -> (r: String)
    ensures
        r@ == destination_of(host@, dir@),
{
    let mut out = host.to_owned();
    out.append(":");
    out.append(dir);
    proof {
        reveal_strlit(":");
        assert(":"@ =~= seq![':']);
        assert(out@ =~= destination_of(host@, dir@));
    }
    out
}

/// The filter rules appended for the ignore patterns, after the default
/// ignore-file rule: `,- <pattern>` each.
pub open spec fn filter_tail(ps: Seq<Seq<char>>) -> Seq<char>
    decreases ps.len(),
{
    if ps.len() == 0 {
        Seq::empty()
    } else {
        filter_tail(ps.drop_last()) + seq![',', '-', ' '] + ps.last()
    }
}

/// The whole filter argument: the default ignore-file rule and one exclusion
/// rule per ignore pattern, joined by commas.
pub open spec fn filter_string_of(ps: Seq<Seq<char>>) -> Seq<char> {
    ":- .gitignore"@ + filter_tail(ps)
}

/// Builds the single filter argument handed to the transfer tool.
pub fn build_filter_string(ignore_patterns: &Vec<String>) -> (r: String)
    ensures
        r@ == filter_string_of(ignore_patterns.deep_view()),
{
    let ghost ps = ignore_patterns.deep_view();
    let mut out: String = ":- .gitignore".to_owned();
    proof {
        assert(filter_tail(ps.take(0)) =~= Seq::<char>::empty());
        assert(out@ =~= ":- .gitignore"@ + filter_tail(ps.take(0)));
    }
    let n = ignore_patterns.len();
    let mut i: usize = 0;
    while i < n
        invariant
            i <= n == ignore_patterns@.len(),
            ps == ignore_patterns.deep_view(),
            ps.len() == n,
            out@ =~= ":- .gitignore"@ + filter_tail(ps.take(i as int)),
        decreases n - i,
    {
        out.append(",- ");
        out.append(ignore_patterns[i].as_str());
        proof {
            reveal_strlit(",- ");
            assert(",- "@ =~= seq![',', '-', ' ']);
            assert(ps.take(i as int + 1).drop_last() =~= ps.take(i as int));
            assert(ps.take(i as int + 1).last() == ps[i as int]);
            assert(ps[i as int] == ignore_patterns@[i as int]@);
            assert(out@ =~= ":- .gitignore"@ + filter_tail(ps.take(i as int + 1)));
        }
        i = i + 1;
    }
    proof {
        assert(ps.take(n as int) =~= ps);
    }
    out
}

/// The command run on the remote host after a sync: change into the resolved
/// directory, then the configured command.
pub open spec fn post_command_line(dir: Seq<char>, cmd: Seq<char>) -> Seq<char> {
    "cd "@ + dir + " && "@ + cmd
}

pub fn build_post_command(remote_full_dir: &str, cmd: &str) -> (r: String)
    ensures
        r@ == post_command_line(remote_full_dir@, cmd@),
{
    let mut out: String = "cd ".to_owned();
    out.append(remote_full_dir);
    out.append(" && ");
    out.append(cmd);
    out
}

pub open spec fn is_ws(c: char) -> bool {
    c == ' ' || c == '\t'
}

/// The first position at or after `i` holding a non-blank character.
pub open spec fn next_non_ws(s: Seq<char>, i: int) -> int
    decreases s.len() - i,
{
    if i < 0 || i >= s.len() {
        s.len() as int
    } else if !is_ws(s[i]) {
        i
    } else {
        next_non_ws(s, i + 1)
    }
}

/// The first position at or after `i` holding a blank character.
pub open spec fn token_end(s: Seq<char>, i: int) -> int
    decreases s.len() - i,
{
    if i < 0 || i >= s.len() {
        s.len() as int
    } else if is_ws(s[i]) {
        i
    } else {
        token_end(s, i + 1)
    }
}

/// The start of the blank-separated token after position `i`.
pub open spec fn nth_token_start(s: Seq<char>, n: nat) -> int
    decreases n,
{
    if n == 0 {
        next_non_ws(s, 0)
    } else {
        next_non_ws(s, token_end(s, nth_token_start(s, (n - 1) as nat)))
    }
}

/// The blank-separated token of a position, to its end.
pub open spec fn token_at(s: Seq<char>, start: int) -> Seq<char> {
    s.subrange(start, token_end(s, start))
}

/// The characters of a token up to its first `.`.
pub open spec fn upto_dot_len(t: Seq<char>) -> int
    decreases t.len(),
{
    if t.len() == 0 {
        0
    } else if t[0] == '.' {
        0
    } else {
        1 + upto_dot_len(t.drop_first())
    }
}

/// The major version read from the transfer tool's version line: the third
/// blank-separated token, up to its first `.`, as a decimal number — if that
/// is a number at all and fits.
pub open spec fn rsync_major_of(line: Seq<char>) -> Option<u32> {
    let start = nth_token_start(line, 2);
    if start >= line.len() {
        None
    } else {
        let t = token_at(line, start);
        let d = t.take(upto_dot_len(t));
        if d.len() > 0 && all_digits(d) && dec_val(d) <= u32::MAX as nat {
            Some(dec_val(d) as u32)
        } else {
            None
        }
    }
}

proof fn lemma_next_non_ws(s: Seq<char>, i: int)
    requires
        0 <= i <= s.len(),
    ensures
        i <= next_non_ws(s, i) <= s.len(),
        forall|k: int| i <= k < next_non_ws(s, i) ==> is_ws(s[k]),
        next_non_ws(s, i) < s.len() ==> !is_ws(s[next_non_ws(s, i)]),
    decreases s.len() - i,
{
    if i < s.len() && is_ws(s[i]) {
        lemma_next_non_ws(s, i + 1);
    }
}

proof fn lemma_token_end(s: Seq<char>, i: int)
    requires
        0 <= i <= s.len(),
    ensures
        i <= token_end(s, i) <= s.len(),
        forall|k: int| i <= k < token_end(s, i) ==> !is_ws(s[k]),
        token_end(s, i) < s.len() ==> is_ws(s[token_end(s, i)]),
    decreases s.len() - i,
{
    if i < s.len() && !is_ws(s[i]) {
        lemma_token_end(s, i + 1);
    }
}

/// Scans from `i` to the next non-blank position.
fn scan_non_ws(cs: &Vec<char>, i: usize) -> (r: usize)
    requires
        i <= cs@.len(),
    ensures
        r == next_non_ws(cs@, i as int),
        i <= r <= cs@.len(),
{
    proof {
        lemma_next_non_ws(cs@, i as int);
    }
    let n = cs.len();
    let mut j = i;
    while j < n && (cs[j] == ' ' || cs[j] == '\t')
        invariant
            i <= j <= n == cs@.len(),
            forall|k: int| i <= k < j ==> is_ws(cs@[k]),
        decreases n - j,
    {
        j = j + 1;
    }
    proof {
        lemma_next_non_ws(cs@, i as int);
        let r = next_non_ws(cs@, i as int);
        if r < j {
            assert(is_ws(cs@[r]));
        }
        if j < r {
            assert(is_ws(cs@[j as int]));
        }
    }
    j
}

/// Scans from `i` to the end of the token there.
fn scan_token_end(cs: &Vec<char>, i: usize) -> (r: usize)
    requires
        i <= cs@.len(),
    ensures
        r == token_end(cs@, i as int),
        i <= r <= cs@.len(),
{
    proof {
        lemma_token_end(cs@, i as int);
    }
    let n = cs.len();
    let mut j = i;
    while j < n && !(cs[j] == ' ' || cs[j] == '\t')
        invariant
            i <= j <= n == cs@.len(),
            forall|k: int| i <= k < j ==> !is_ws(cs@[k]),
        decreases n - j,
    {
        j = j + 1;
    }
    proof {
        lemma_token_end(cs@, i as int);
        let r = token_end(cs@, i as int);
        if r < j {
            assert(!is_ws(cs@[r]));
        }
        if j < r {
            assert(!is_ws(cs@[j as int]));
        }
    }
    j
}

/// Reads the transfer tool's major version out of its version line.
pub fn parse_rsync_major(line: &str) -> (r: Option<u32>)
    ensures
        r == rsync_major_of(line@),
{
    let cs = str_chars(line);
    let s0 = scan_non_ws(&cs, 0);
    let e0 = scan_token_end(&cs, s0);
    let s1 = scan_non_ws(&cs, e0);
    let e1 = scan_token_end(&cs, s1);
    let s2 = scan_non_ws(&cs, e1);
    proof {
        assert(nth_token_start(line@, 0) == next_non_ws(line@, 0));
        assert(nth_token_start(line@, 1) == next_non_ws(
            line@,
            token_end(line@, nth_token_start(line@, 0)),
        ));
        assert(nth_token_start(line@, 2) == next_non_ws(
            line@,
            token_end(line@, nth_token_start(line@, 1)),
        ));
        assert(s2 == nth_token_start(line@, 2));
    }
    if s2 >= cs.len() {
        return None;
    }
    let e2 = scan_token_end(&cs, s2);
    let ghost t = token_at(line@, s2 as int);
    proof {
        lemma_token_end(line@, s2 as int);
        assert(t.len() == e2 - s2);
        assert(forall|k: int| 0 <= k < t.len() ==> t[k] == line@[s2 + k]);
    }
    let mut dlen: usize = 0;
    while s2 + dlen < e2 && cs[s2 + dlen] != '.'
        invariant
            0 <= dlen,
            s2 + dlen <= e2 <= cs@.len(),
            cs@ == line@,
            t == token_at(line@, s2 as int),
            t.len() == e2 - s2,
            forall|k: int| 0 <= k < t.len() ==> t[k] == line@[s2 + k],
            forall|k: int| 0 <= k < dlen ==> t[k] != '.',
        decreases e2 - s2 - dlen,
    {
        dlen = dlen + 1;
    }
    proof {
        lemma_upto_dot(t);
        let u = upto_dot_len(t);
        if (dlen as int) < u {
            if s2 + dlen == e2 {
                assert(u <= t.len());
                assert(false);
            } else {
                assert(t[dlen as int] == '.');
                assert(false);
            }
        }
        if u < dlen as int {
            assert(t[u] == '.');
            assert(false);
        }
        assert(dlen == upto_dot_len(t));
    }
    if dlen == 0 {
        return None;
    }
    let ghost d = t.take(dlen as int);
    let mut acc: u64 = 0;
    let mut over = false;
    let mut k: usize = 0;
    while k < dlen
        invariant
            k <= dlen,
            s2 + dlen <= e2 <= cs@.len(),
            cs@ == line@,
            s2 == nth_token_start(line@, 2),
            s2 < cs@.len(),
            t == token_at(line@, s2 as int),
            0 < dlen == upto_dot_len(t),
            d == t.take(dlen as int),
            d.len() == dlen,
            forall|q: int| 0 <= q < d.len() ==> d[q] == line@[s2 + q],
            all_digits(d.take(k as int)),
            !over ==> acc == dec_val(d.take(k as int)) && acc <= u32::MAX,
            over ==> dec_val(d.take(k as int)) > u32::MAX as nat,
        decreases dlen - k,
    {
        let ch = cs[s2 + k];
        let dv: u64 = match ch {
            '0' => 0,
            '1' => 1,
            '2' => 2,
            '3' => 3,
            '4' => 4,
            '5' => 5,
            '6' => 6,
            '7' => 7,
            '8' => 8,
            '9' => 9,
            _ => {
                proof {
                    assert(d[k as int] == ch);
                    assert(!is_digit(ch));
                    assert(!all_digits(d));
                }
                return None;
            },
        };
        proof {
            assert(is_digit(ch) && digit_val(ch) == dv);
            assert(d.take(k as int + 1).drop_last() =~= d.take(k as int));
            assert(d.take(k as int + 1).last() == d[k as int]);
            assert(dec_val(d.take(k as int + 1)) == dec_val(d.take(k as int)) * 10 + dv);
        }
        if !over {
            let t2 = acc * 10 + dv;
            if t2 > u32::MAX as u64 {
                over = true;
                proof {
                    assert(dec_val(d.take(k as int + 1)) == acc * 10 + dv);
                }
            } else {
                acc = t2;
            }
        } else {
            proof {
                let pre = dec_val(d.take(k as int));
                assert(dec_val(d.take(k as int + 1)) >= pre * 10) by (nonlinear_arith)
                    requires
                        dec_val(d.take(k as int + 1)) == pre * 10 + dv,
                        dv >= 0,
                ;
                assert(pre * 10 > u32::MAX as nat) by (nonlinear_arith)
                    requires
                        pre > u32::MAX as nat,
                ;
            }
        }
        k = k + 1;
    }
    proof {
        assert(d.take(dlen as int) =~= d);
    }
    if over {
        return None;
    }
    Some(acc as u32)
}

proof fn lemma_upto_dot(t: Seq<char>)
    ensures
        0 <= upto_dot_len(t) <= t.len(),
        forall|k: int| 0 <= k < upto_dot_len(t) ==> t[k] != '.',
        upto_dot_len(t) < t.len() ==> t[upto_dot_len(t)] == '.',
    decreases t.len(),
{
    if t.len() > 0 && t[0] != '.' {
        lemma_upto_dot(t.drop_first());
        assert forall|k: int| 0 <= k < upto_dot_len(t) implies t[k] != '.' by {
            if k > 0 {
                assert(t.drop_first()[k - 1] == t[k]);
            }
        }
        if upto_dot_len(t) < t.len() {
            assert(t.drop_first()[upto_dot_len(t) - 1] == t[upto_dot_len(t)]);
        }
    }
}

/// The transfer tool is supported from major version three on.
pub fn rsync_major_supported(major: u32) -> (r: bool)
    ensures
        r == (major >= 3),
{
    major >= 3
}

} // verus!
