//! Properties of the library that span its functions or hold of all their
//! inputs.
use vstd::prelude::*;
use crate::command::{command_plan, connect_plan, expand_home, ActionView};
use crate::hooks::{dedup_result, nick_all_guilds, nick_args, nick_name, starts_run};
use crate::number::{all_digits, decimal_value, digit_value, is_digit, parse_u64_spec, unsigned_digits};
use crate::text::{after_bytes, has_prefix, lemma_encode_utf8_concat, lemma_trim_end, lemma_trimmed_at, lemma_trimmed_borders, lemma_trimmed_middle, trim_end, trim_start, trimmed, Pattern};
use vstd::utf8::{encode_utf8, encode_utf8_decode_utf8, is_ascii_chars, is_ascii_chars_encode_utf8};

verus! {

/// Trimming twice is trimming once.
pub proof fn law_trim_idempotent(s: Seq<char>, p: Pattern)
    ensures
        trimmed(trimmed(s, p), p) == trimmed(s, p),
{
    let r = trimmed(s, p);
    lemma_trimmed_borders(s, p);
    assert(trim_start(r, p) == r);
    lemma_trim_end(trim_start(s, p), p);
}

/// A trimmed string neither begins nor ends with a character the pattern
/// strips.
pub proof fn law_trimmed_has_clean_borders(s: Seq<char>, p: Pattern)
    ensures
        trimmed(s, p).len() > 0 ==> !p.spec_matches(trimmed(s, p)[0]),
        trimmed(s, p).len() > 0 ==> !p.spec_matches(trimmed(s, p).last()),
{
    lemma_trimmed_borders(s, p);
}

/// Every `/discord` command is answered: it asks for at least one action.
pub proof fn law_every_command_answered(c: Seq<char>)
    ensures
        command_plan(c).len() >= 1,
{
}

/// The token that `/discord token ...` stores never begins or ends with a
/// double quote.
pub proof fn law_stored_token_unquoted(c: Seq<char>)
    requires
        has_prefix(c, "token "@),
    ensures
        command_plan(c)[0] matches ActionView::ReportSetOption(name, value) && name == "token"@
            && (value.len() > 0 ==> value[0] != '"' && value.last() != '"'),
{
    reveal_strlit("token ");
    reveal_strlit("");
    reveal_strlit("connect");
    reveal_strlit("disconnect");
    assert(c.subrange(0, 6)[0] == 't');
    assert(c != "connect"@);
    assert(c != "disconnect"@);
    lemma_trimmed_borders(c.subrange("token "@.len() as int, c.len() as int), Pattern::Char('"'));
}

/// `connect` never opens a second session while one is open, and without
/// a token it never opens one.
pub proof fn law_connect_never_doubles(token: Option<Seq<char>>, connected: bool)
    ensures
        connected ==> forall|k: int|
            0 <= k < connect_plan(token, connected).len() ==> !(#[trigger] connect_plan(
                token,
                connected,
            )[k] is StartSession),
        token is None ==> forall|k: int|
            0 <= k < connect_plan(token, connected).len() ==> !(#[trigger] connect_plan(
                token,
                connected,
            )[k] is StartSession),
{
}

/// An unsigned parse never accepts a minus sign.
pub proof fn law_parse_rejects_minus(d: Seq<char>)
    ensures
        parse_u64_spec(seq!['-'] + d) is None,
{
    assert((seq!['-'] + d)[0] == '-');
}

/// After `dedup_by_key`, no two kept neighbours share a key, and the first
/// item is always kept.
pub proof fn law_dedup_neighbours_differ(keys: Seq<u64>, r: Seq<usize>)
    requires
        dedup_result(keys, r),
    ensures
        forall|k: int| 0 <= k < r.len() - 1 ==> keys[r[k] as int] != keys[#[trigger] r[k + 1] as int],
        keys.len() > 0 ==> r.len() > 0 && r[0] == 0,
{
    assert forall|k: int| 0 <= k < r.len() - 1 implies keys[r[k] as int] != keys[#[trigger] r[k + 1] as int] by {
        let a = r[k] as int;
        let b = r[k + 1] as int;
        // every position strictly between a and b continues a's run
        assert forall|t: int| a <= t < b implies keys[t] == keys[a] by {
            lemma_run_continues(keys, r, k, a, t);
        }
        assert(keys[b - 1] == keys[a]);
    }
    if keys.len() > 0 {
        assert(starts_run(keys, 0));
        assert(r.contains(0usize));
        let idx = choose|idx: int| 0 <= idx < r.len() && r[idx] == 0usize;
        if idx > 0 {
            assert(r[0] < r[idx]);
        }
    }
}

proof fn lemma_run_continues(keys: Seq<u64>, r: Seq<usize>, k: int, a: int, t: int)
    requires
        dedup_result(keys, r),
        0 <= k < r.len() - 1,
        a == r[k] as int,
        a <= t < r[k + 1] as int,
    ensures
        keys[t] == keys[a],
    decreases t - a,
{
    if t > a {
        lemma_run_continues(keys, r, k, a, t - 1);
        if keys[t] != keys[t - 1] {
            assert(starts_run(keys, t));
            assert(r.contains(t as usize));
            let idx = choose|idx: int| 0 <= idx < r.len() && r[idx] == t as usize;
            if idx <= k {
                if idx < k {
                    assert(r[idx] < r[k]);
                }
            } else {
                if idx > k + 1 {
                    assert(r[k + 1] < r[idx]);
                }
            }
        }
    }
}

/// After an ASCII prefix, slicing at a byte offset (`split_off_bytes`) and
/// at the same number of characters (`skip_chars`) give the same string.
pub proof fn law_byte_and_char_slicing_agree(s: Seq<char>, k: int)
    requires
        0 <= k <= s.len(),
        is_ascii_chars(s.subrange(0, k)),
    ensures
        after_bytes(s, k) == s.subrange(k, s.len() as int),
{
    let pre = s.subrange(0, k);
    let post = s.subrange(k, s.len() as int);
    assert(s =~= pre + post);
    lemma_encode_utf8_concat(pre, post);
    is_ascii_chars_encode_utf8(pre);
    let e = encode_utf8(s);
    assert(e.subrange(k, e.len() as int) =~= encode_utf8(post));
    encode_utf8_decode_utf8(post);
}

/// The arguments of `/nick <rest>` are `rest`, trimmed.
pub proof fn law_nick_args(rest: Seq<char>)
    ensures
        nick_args("/nick"@ + rest) == trimmed(rest, Pattern::Whitespace),
{
    reveal_strlit("/nick");
    let s = "/nick"@ + rest;
    assert(s.subrange(0, 5) =~= "/nick"@);
    assert(is_ascii_chars(s.subrange(0, 5)));
    law_byte_and_char_slicing_agree(s, 5);
    assert(s.subrange(5, s.len() as int) =~= rest);
}

/// The search text of `/query <rest>` is `rest`, trimmed.
pub proof fn law_query_term(rest: Seq<char>)
    ensures
        trimmed(after_bytes("/query "@ + rest, 7), Pattern::Whitespace) == trimmed(rest, Pattern::Whitespace),
{
    reveal_strlit("/query ");
    let s = "/query "@ + rest;
    assert(s.subrange(0, 7) =~= "/query "@);
    assert(is_ascii_chars(s.subrange(0, 7)));
    law_byte_and_char_slicing_agree(s, 7);
    assert(s.subrange(7, s.len() as int) =~= rest);
}


/// Among ASCII characters, `Pattern::Whitespace` matches exactly space,
/// tab, line feed, vertical tab, form feed and carriage return.
pub proof fn law_whitespace_ascii(c: char)
    requires
        (c as u32) < 128,
    ensures
        Pattern::Whitespace.spec_matches(c) <==> (c as u32 == 32 || 9 <= c as u32 <= 13),
{
}

/// `Pattern::Whitespace` matches exactly the code points with the Unicode
/// `White_Space` property: U+0009 to U+000D, U+0020, U+0085, U+00A0,
/// U+1680, U+2000 to U+200A, U+2028, U+2029, U+202F, U+205F and U+3000.
pub proof fn law_whitespace_is_white_space(c: char)
    ensures
        Pattern::Whitespace.spec_matches(c) <==> {
            let u = c as u32;
            (9 <= u && u <= 13) || u == 32 || u == 133 || u == 160 || u == 5760 || (8192 <= u
                && u <= 8202) || u == 8232 || u == 8233 || u == 8239 || u == 8287 || u == 12288
        },
{
}

/// What trimming keeps is the stretch of `s` left between a prefix and a
/// suffix made only of matching characters; the stretch is empty or
/// neither begins nor ends with a matching character.
pub proof fn law_trimmed_is_middle_stretch(s: Seq<char>, p: Pattern)
    ensures
        exists|i: int, j: int|
            {
                &&& 0 <= i <= j <= s.len()
                &&& #[trigger] s.subrange(i, j) == trimmed(s, p)
                &&& forall|k: int| 0 <= k < i ==> p.spec_matches(#[trigger] s[k])
                &&& forall|k: int| j <= k < s.len() ==> p.spec_matches(#[trigger] s[k])
                &&& i < j ==> !p.spec_matches(s[i]) && !p.spec_matches(s[j - 1])
            },
{
    let (i, j) = lemma_trimmed_middle(s, p);
    assert(s.subrange(i, j) == trimmed(s, p));
}

/// Trimming whitespace leaves unchanged a string that begins and ends with
/// a visible ASCII character (`!` to `~`).
pub proof fn law_trim_keeps_visible_ends(s: Seq<char>)
    requires
        s.len() > 0,
        33 <= s[0] as u32 <= 126,
        33 <= s.last() as u32 <= 126,
    ensures
        trimmed(s, Pattern::Whitespace) == s,
{
    lemma_trimmed_at(s, Pattern::Whitespace, 0, s.len() as int);
    assert(s.subrange(0, s.len() as int) =~= s);
}

/// The search text of `/query <rest>` is `rest` itself when `rest` begins
/// and ends with a visible ASCII character.
pub proof fn law_query_keeps_visible_text(rest: Seq<char>)
    requires
        rest.len() > 0,
        33 <= rest[0] as u32 <= 126,
        33 <= rest.last() as u32 <= 126,
    ensures
        trimmed(after_bytes("/query "@ + rest, 7), Pattern::Whitespace) == rest,
{
    law_query_term(rest);
    law_trim_keeps_visible_ends(rest);
}

/// `/discord token <rest>` stores under `token` the stretch of `rest`
/// left once its leading and trailing double quotes are removed, and then
/// says so; nothing else.
pub proof fn law_token_stored(rest: Seq<char>)
    ensures
        command_plan("token "@ + rest).len() == 2,
        command_plan("token "@ + rest)[1] == ActionView::Print("Set Discord token"@),
        command_plan("token "@ + rest)[0] matches ActionView::ReportSetOption(name, value) && name
            == "token"@ && exists|i: int, j: int|
            {
                &&& 0 <= i <= j <= rest.len()
                &&& #[trigger] rest.subrange(i, j) == value
                &&& forall|k: int| 0 <= k < i ==> #[trigger] rest[k] == '"'
                &&& forall|k: int| j <= k < rest.len() ==> #[trigger] rest[k] == '"'
                &&& i < j ==> rest[i] != '"' && rest[j - 1] != '"'
            },
{
    reveal_strlit("token ");
    reveal_strlit("");
    reveal_strlit("connect");
    reveal_strlit("disconnect");
    let c = "token "@ + rest;
    assert(c[0] == 't');
    assert(c.len() >= 6);
    assert(""@.len() == 0);
    assert(c != ""@);
    assert(c != "connect"@);
    assert(c != "disconnect"@);
    assert(c.subrange(0, 6) =~= "token "@);
    assert(c.subrange(6, c.len() as int) =~= rest);
    let p = Pattern::Char('"');
    let (i, j) = lemma_trimmed_middle(rest, p);
    assert(rest.subrange(i, j) == trimmed(rest, p));
}

/// With a token stored and no session open, `connect` opens one session
/// with exactly that token.
pub proof fn law_connect_uses_stored_token(t: Seq<char>)
    ensures
        connect_plan(Some(t), false).len() == 1,
        connect_plan(Some(t), false)[0] == ActionView::StartSession(t),
{
}

/// Unless `/nick <rest>` asks for every guild, the nickname it sets is
/// `rest`, trimmed, character for character.
pub proof fn law_nick_name(rest: Seq<char>)
    ensures
        nick_all_guilds("/nick"@ + rest) || nick_name("/nick"@ + rest) == trimmed(
            rest,
            Pattern::Whitespace,
        ),
{
    law_nick_args(rest);
}

/// `/nick <w>-all<tail>`, with `w` only whitespace and `tail` empty or
/// starting with a space, asks for every guild and sets `tail`, trimmed.
pub proof fn law_nick_all_guilds(w: Seq<char>, tail: Seq<char>)
    requires
        forall|k: int| 0 <= k < w.len() ==> Pattern::Whitespace.spec_matches(#[trigger] w[k]),
        tail.len() == 0 || tail[0] == ' ',
    ensures
        nick_all_guilds("/nick"@ + (w + "-all"@ + tail)),
        nick_name("/nick"@ + (w + "-all"@ + tail)) == trimmed(tail, Pattern::Whitespace),
{
    reveal_strlit("-all");
    let ws = Pattern::Whitespace;
    let x = w + "-all"@ + tail;
    law_nick_args(x);
    lemma_trim_end(tail, ws);
    let m = trim_end(tail, ws).len() as int;
    let i = w.len() as int;
    let j = i + 4 + m;
    assert forall|k: int| 0 <= k < i implies ws.spec_matches(#[trigger] x[k]) by {
        assert(x[k] == w[k]);
    }
    assert forall|k: int| j <= k < x.len() implies ws.spec_matches(#[trigger] x[k]) by {
        assert(x[k] == tail[k - i - 4]);
    }
    assert(x[i] == '-');
    if m > 0 {
        assert(x[j - 1] == tail[m - 1]);
        assert(trim_end(tail, ws)[m - 1] == tail[m - 1]);
    } else {
        assert(x[j - 1] == 'l');
    }
    lemma_trimmed_at(x, ws, i, j);
    let args = x.subrange(i, j);
    assert(args.subrange(0, 4) =~= "-all"@);
    if m > 0 {
        assert(args[4] == tail[0]);
    }
    assert(args.subrange(4, args.len() as int) =~= trim_end(tail, ws));
    lemma_trimmed_of_trim_end(tail, ws);
}

/// Trimming after cutting the matching suffix is trimming.
proof fn lemma_trimmed_of_trim_end(t: Seq<char>, p: Pattern)
    ensures
        trimmed(trim_end(t, p), p) == trimmed(t, p),
{
    let (i, j) = lemma_trimmed_middle(t, p);
    lemma_trim_end(t, p);
    let u = trim_end(t, p);
    let m = u.len() as int;
    if i < j {
        assert(j <= m) by {
            if j > m {
                assert(p.spec_matches(t[j - 1]));
            }
        }
        assert forall|k: int| 0 <= k < i implies p.spec_matches(#[trigger] u[k]) by {
            assert(u[k] == t[k]);
        }
        assert forall|k: int| j <= k < u.len() implies p.spec_matches(#[trigger] u[k]) by {
            assert(u[k] == t[k]);
        }
        assert(u[i] == t[i]);
        assert(u[j - 1] == t[j - 1]);
        lemma_trimmed_at(u, p, i, j);
        assert(u.subrange(i, j) =~= t.subrange(i, j));
    } else {
        assert(m == 0) by {
            if m > 0 {
                assert(u[m - 1] == t[m - 1]);
                if m - 1 < i {
                    assert(p.spec_matches(t[m - 1]));
                } else {
                    assert(p.spec_matches(t[m - 1]));
                }
            }
        }
        assert(u =~= Seq::<char>::empty());
        assert(trimmed(u, p) =~= Seq::<char>::empty());
        assert(t.subrange(i, j) =~= Seq::<char>::empty());
    }
}


/// A single ASCII digit parses to its value.
pub proof fn law_parse_single_digit(c: char)
    requires
        48 <= c as u32 <= 57,
    ensures
        parse_u64_spec(seq![c]) == Some((c as u32 - 48) as u64),
{
    let d = seq![c];
    assert(unsigned_digits(d) == d);
    assert(d.drop_last() =~= Seq::<char>::empty());
    assert(d.last() == c);
    assert(all_digits(d)) by {
        assert forall|t: int| 0 <= t < d.len() implies is_digit(#[trigger] d[t]) by {
            assert(d[t] == c);
        }
    }
    assert(decimal_value(d.drop_last()) == 0);
    assert(decimal_value(d) == decimal_value(d.drop_last()) * 10 + digit_value(d.last()));
    assert(decimal_value(d) == (c as u32 - 48) as nat);
}

/// Appending a digit to a number multiplies it by ten and adds the digit,
/// while the result fits in a `u64`; past that the parse fails.
pub proof fn law_parse_append_digit(d: Seq<char>, c: char, v: u64)
    requires
        parse_u64_spec(d) == Some(v),
        48 <= c as u32 <= 57,
    ensures
        v * 10 + (c as u32 - 48) <= u64::MAX ==> parse_u64_spec(d.push(c)) == Some(
            (v * 10 + (c as u32 - 48)) as u64,
        ),
        v * 10 + (c as u32 - 48) > u64::MAX ==> parse_u64_spec(d.push(c)) is None,
{
    let e = unsigned_digits(d);
    let f = unsigned_digits(d.push(c));
    if d[0] == '+' {
        assert(f =~= e.push(c));
    } else {
        assert(f =~= e.push(c));
    }
    assert(f.drop_last() =~= e);
    assert(all_digits(f)) by {
        assert forall|t: int| 0 <= t < f.len() implies is_digit(#[trigger] f[t]) by {
            if t < e.len() {
                assert(f[t] == e[t]);
            }
        }
    }
}

/// One leading `+` is read as no sign at all.
pub proof fn law_parse_plus(d: Seq<char>)
    requires
        d.len() == 0 || d[0] != '+',
    ensures
        parse_u64_spec(seq!['+'] + d) == parse_u64_spec(d),
{
    assert((seq!['+'] + d).drop_first() =~= d);
}

/// A character other than an ASCII digit, anywhere but a leading `+`,
/// makes the parse fail.
pub proof fn law_parse_rejects_non_digit(s: Seq<char>, k: int)
    requires
        0 <= k < s.len(),
        !(48 <= s[k] as u32 <= 57),
        !(k == 0 && s[k] == '+'),
    ensures
        parse_u64_spec(s) is None,
{
    let d = unsigned_digits(s);
    if s.len() > 0 && s[0] == '+' {
        assert(d[k - 1] == s[k]);
        assert(!is_digit(d[k - 1]));
    } else {
        assert(!is_digit(d[k]));
    }
}

/// `/discord upload <rest>` uploads the file named by all of `rest`.
pub proof fn law_upload(rest: Seq<char>)
    ensures
        command_plan("upload "@ + rest) == seq![ActionView::Upload(rest)],
{
    reveal_strlit("upload ");
    lemma_literals();
    let c = "upload "@ + rest;
    assert(c[0] == 'u');
    assert(c.len() >= 7);
    assert(c.subrange(0, 7) =~= "upload "@);
    assert(c.subrange(7, c.len() as int) =~= rest);
    assert(!has_prefix(c, "token "@)) by {
        if has_prefix(c, "token "@) {
            assert(c.subrange(0, 6)[0] == c[0]);
        }
    }
    assert(c != ""@ && c != "connect"@ && c != "disconnect"@ && c != "autostart"@ && c
        != "noautostart"@);
}

/// The views of the command words, spelled out.
proof fn lemma_literals()
    ensures
        ""@.len() == 0,
        "connect"@ =~= seq!['c', 'o', 'n', 'n', 'e', 'c', 't'],
        "disconnect"@ =~= seq!['d', 'i', 's', 'c', 'o', 'n', 'n', 'e', 'c', 't'],
        "token "@ =~= seq!['t', 'o', 'k', 'e', 'n', ' '],
        "autostart"@ =~= seq!['a', 'u', 't', 'o', 's', 't', 'a', 'r', 't'],
        "noautostart"@ =~= seq!['n', 'o', 'a', 'u', 't', 'o', 's', 't', 'a', 'r', 't'],
        "upload "@ =~= seq!['u', 'p', 'l', 'o', 'a', 'd', ' '],
{
    reveal_strlit("");
    reveal_strlit("connect");
    reveal_strlit("disconnect");
    reveal_strlit("token ");
    reveal_strlit("autostart");
    reveal_strlit("noautostart");
    reveal_strlit("upload ");
}

/// Which command asks for which kind of action: the token is stored only
/// by a command that begins with `token `, the `autostart` option is set
/// only by `autostart` (to `true`) and `noautostart` (to `false`), a
/// session is connected only by `connect`, shut down only by
/// `disconnect`, and a file uploaded only by a command that begins with
/// `upload `.
pub proof fn law_command_kinds(c: Seq<char>, k: int)
    requires
        0 <= k < command_plan(c).len(),
    ensures
        command_plan(c)[k] is ReportSetOption ==> c.len() >= 6 && c.subrange(0, 6) == "token "@,
        command_plan(c)[k] matches ActionView::SetOption(n, v) ==> n == "autostart"@ && ((c
            == "autostart"@ && v == "true"@) || (c == "noautostart"@ && v == "false"@)),
        command_plan(c)[k] is Connect ==> c == "connect"@,
        command_plan(c)[k] is Disconnect ==> c == "disconnect"@,
        command_plan(c)[k] is Upload ==> c.len() >= 7 && c.subrange(0, 7) == "upload "@,
        command_plan(c)[k] is StartSession ==> false,
{
    lemma_literals();
}

/// `autostart` and `noautostart` set the `autostart` option to `true` and
/// `false`; `connect` and `disconnect` ask for a connection and a shutdown.
pub proof fn law_fixed_commands()
    ensures
        command_plan("autostart"@)[0] == ActionView::SetOption("autostart"@, "true"@),
        command_plan("noautostart"@)[0] == ActionView::SetOption("autostart"@, "false"@),
        command_plan("connect"@) == seq![ActionView::Connect],
        command_plan("disconnect"@)[0] == ActionView::Disconnect,
{
    lemma_literals();
    assert("autostart"@ != "connect"@);
    assert("autostart"@ != ""@);
    assert("autostart"@ != "disconnect"@);
    assert(!has_prefix("autostart"@, "token "@)) by {
        if has_prefix("autostart"@, "token "@) {
            assert("autostart"@.subrange(0, 6)[0] == 'a');
        }
    }
    assert("noautostart"@ != "connect"@);
    assert("noautostart"@ != ""@);
    assert("noautostart"@ != "disconnect"@);
    assert("noautostart"@ != "autostart"@);
    assert(!has_prefix("noautostart"@, "token "@)) by {
        if has_prefix("noautostart"@, "token "@) {
            assert("noautostart"@.subrange(0, 6)[0] == 'n');
        }
    }
    assert("connect"@ != ""@);
    assert("disconnect"@ != ""@);
    assert("disconnect"@ != "connect"@);
}


/// `Pattern::Char(x)` matches `x` and nothing else.
pub proof fn law_char_pattern(x: char, c: char)
    ensures
        Pattern::Char(x).spec_matches(c) <==> c == x,
{
}

/// A leading `~/` becomes the home directory and a `/` (or `./` without a
/// home directory); any other path is kept as it is.
pub proof fn law_expand_home(f: Seq<char>, h: Seq<char>)
    ensures
        f.len() >= 2 && f[0] == '~' && f[1] == '/' ==> expand_home(f, Some(h)) == h + seq!['/']
            + f.subrange(2, f.len() as int),
        f.len() >= 2 && f[0] == '~' && f[1] == '/' ==> expand_home(f, None) == seq!['.', '/']
            + f.subrange(2, f.len() as int),
        !(f.len() >= 2 && f[0] == '~' && f[1] == '/') ==> expand_home(f, Some(h)) == f
            && expand_home(f, None) == f,
{
    reveal_strlit("~/");
    reveal_strlit("/");
    reveal_strlit(".");
    assert("~/"@ =~= seq!['~', '/']);
    if f.len() >= 2 && f[0] == '~' && f[1] == '/' {
        assert(f.subrange(0, 2) =~= "~/"@);
        assert(h + "/"@ + f.subrange(2, f.len() as int) =~= h + seq!['/'] + f.subrange(
            2,
            f.len() as int,
        ));
        assert("."@ + "/"@ + f.subrange(2, f.len() as int) =~= seq!['.', '/'] + f.subrange(
            2,
            f.len() as int,
        ));
    } else {
        if has_prefix(f, "~/"@) {
            assert(f.subrange(0, 2)[0] == f[0]);
            assert(f.subrange(0, 2)[1] == f[1]);
        }
    }
}

/// `/nick <rest>` asks for every guild only when `rest`, trimmed, is
/// `-all` alone or `-all` followed by a space.
pub proof fn law_nick_all_only_when_asked(rest: Seq<char>)
    ensures
        nick_all_guilds("/nick"@ + rest) ==> {
            let a = trimmed(rest, Pattern::Whitespace);
            &&& a.len() >= 4
            &&& a.subrange(0, 4) == seq!['-', 'a', 'l', 'l']
            &&& (a.len() == 4 || a[4] == ' ')
        },
{
    reveal_strlit("-all");
    law_nick_args(rest);
    assert("-all"@ =~= seq!['-', 'a', 'l', 'l']);
}

} // verus!
