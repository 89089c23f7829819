//! The configuration file: its `[default]` section gives words that go
//! before those of every `get` command, its `[default.instances]` section
//! the hosts that `--instance <n>` picks from.

use vstd::prelude::*;
use crate::args::lower_of;
use crate::strings::{get_str, section_spec};
use crate::text::{
    before_first, before_first_chars, chars_of, is_word, lines, lines_spec, remove_all, remove_all_chars,
    string_of, trim_chars, trim_spec,
};

verus! {

broadcast use vstd::string::group_string_axioms;

/// The host named by a line of the instance list, followed by a line feed.
pub open spec fn instance_entry(line: Seq<char>) -> Seq<char> {
    before_first(remove_all(line, "https://"@), '/') + seq!['\n']
}

/// The hosts listed in the `[default.instances]` section, one per line.
pub fn config_instances(text: &str) -> (r: Vec<String>)
    ensures
        r@.len() == lines_spec(section_spec(text@, "default.instances"@)).len(),
        forall|i: int|
            0 <= i < r@.len() ==> #[trigger] r@[i]@ == instance_entry(
                lines_spec(section_spec(text@, "default.instances"@))[i],
            ),
{
    let section = get_str(text, "default.instances");
    let ls = lines(section.as_str());
    let ghost sls = lines_spec(section@);
    let scheme = chars_of("https://");
    let mut out: Vec<String> = Vec::new();
    let mut i: usize = 0;
    while i < ls.len()
        invariant
            ls@.len() == sls.len(),
            forall|j: int| 0 <= j < ls@.len() ==> #[trigger] ls@[j]@ == sls[j],
            scheme@ == "https://"@,
            i <= ls@.len(),
            out@.len() == i,
            forall|j: int| 0 <= j < i ==> #[trigger] out@[j]@ == instance_entry(sls[j]),
        decreases ls@.len() - i,
    {
        let bare = remove_all_chars(&ls[i], &scheme);
        let mut host = before_first_chars(&bare, '/');
        host.push('\n');
        out.push(string_of(&host));
        i = i + 1;
    }
    out
}

pub open spec fn strings_view(v: Seq<String>) -> Seq<Seq<char>> {
    Seq::new(v.len(), |i: int| v[i]@)
}

fn lower_chars(t: &Vec<char>) -> (r: Vec<char>)
    ensures
        r@ == lower_of(t@),
{
    let s = string_of(t);
    let l = crate::args::lowercase_string(&s);
    chars_of(l.as_str())
}

/// The parts of `s` between its `=` signs: those finished, and the one being
/// read.
pub open spec fn eq_split_fold(s: Seq<char>) -> (Seq<Seq<char>>, Seq<char>)
    decreases s.len(),
{
    if s.len() == 0 {
        (Seq::empty(), Seq::empty())
    } else {
        let (done, cur) = eq_split_fold(s.drop_last());
        if s.last() == '=' {
            (done.push(cur), Seq::empty())
        } else {
            (done, cur.push(s.last()))
        }
    }
}

/// The parts of a line between its `=` signs, without white space at their
/// ends.
pub open spec fn option_parts(s: Seq<char>) -> Seq<Seq<char>> {
    let (done, cur) = eq_split_fold(s);
    let all = done.push(cur);
    Seq::new(all.len(), |i: int| trim_spec(all[i]))
}

fn split_option(line: &Vec<char>) -> (r: Vec<Vec<char>>)
    ensures
        r@.len() == option_parts(line@).len(),
        forall|i: int| 0 <= i < r@.len() ==> #[trigger] r@[i]@ == option_parts(line@)[i],
{
    let mut out: Vec<Vec<char>> = Vec::new();
    let mut cur: Vec<char> = Vec::new();
    let mut i: usize = 0;
    while i < line.len()
        invariant
            i <= line@.len(),
            out@.len() == eq_split_fold(line@.take(i as int)).0.len(),
            forall|j: int|
                0 <= j < out@.len() ==> #[trigger] out@[j]@ == trim_spec(eq_split_fold(line@.take(i as int)).0[j]),
            cur@ == eq_split_fold(line@.take(i as int)).1,
        decreases line@.len() - i,
    {
        proof {
            assert(line@.take(i + 1).drop_last() =~= line@.take(i as int));
        }
        if line[i] == '=' {
            out.push(trim_chars(&cur));
            cur = Vec::new();
        } else {
            cur.push(line[i]);
        }
        i = i + 1;
    }
    proof {
        assert(line@.take(i as int) =~= line@);
    }
    out.push(trim_chars(&cur));
    out
}

/// The words that one `key = value` line of the `[default]` section stands
/// for.
pub open spec fn option_words(parts: Seq<Seq<char>>) -> Seq<Seq<char>> {
    if parts.len() != 2 {
        Seq::empty()
    } else {
        let key = lower_of(parts[0]);
        let v = parts[1];
        let on = lower_of(v) == "true"@;
        if key == "vcodec"@ {
            seq!["-c"@, v]
        } else if key == "vquality"@ {
            seq!["-q"@, v]
        } else if key == "aformat"@ {
            seq!["-f"@, v]
        } else if key == "audio-only"@ {
            if on { seq!["-a"@] } else { Seq::empty() }
        } else if key == "mute-audio"@ {
            if on { seq!["-m"@] } else { Seq::empty() }
        } else if key == "twitter-gif"@ {
            if on { seq!["-g"@] } else { Seq::empty() }
        } else if key == "tt-full-audio"@ {
            if on { seq!["-u"@] } else { Seq::empty() }
        } else if key == "tt-h265"@ {
            if on { seq!["-h"@] } else { Seq::empty() }
        } else if key == "dublang"@ {
            if lower_of(v) != "none"@ { seq!["-l"@, v] } else { Seq::empty() }
        } else if key == "no-metadata"@ {
            if on { seq!["-n"@] } else { Seq::empty() }
        } else if key == "fname-style"@ {
            seq!["-s"@, v]
        } else if key == "instance"@ {
            seq!["-i"@, v]
        } else {
            Seq::empty()
        }
    }
}

/// The words of the first `n` lines.
pub open spec fn defaults_fold(ls: Seq<Seq<char>>, n: int) -> Seq<Seq<char>>
    decreases n,
{
    if n <= 0 {
        Seq::empty()
    } else {
        defaults_fold(ls, n - 1) + option_words(option_parts(ls[n - 1]))
    }
}

pub open spec fn defaults_spec(text: Seq<char>) -> Seq<Seq<char>> {
    let ls = lines_spec(section_spec(text, "default"@));
    defaults_fold(ls, ls.len() as int)
}

fn one(a: &str) -> (r: Vec<String>)
    ensures
        strings_view(r@) == seq![a@],
{
    let mut v: Vec<String> = Vec::new();
    v.push(a.to_string());
    proof {
        assert(strings_view(v@) =~= seq![a@]);
    }
    v
}

fn two(a: &str, b: &Vec<char>) -> (r: Vec<String>)
    ensures
        strings_view(r@) == seq![a@, b@],
{
    let mut v: Vec<String> = Vec::new();
    v.push(a.to_string());
    v.push(string_of(b));
    proof {
        assert(strings_view(v@) =~= seq![a@, b@]);
    }
    v
}

fn option_words_of(parts: &Vec<Vec<char>>) -> (r: Vec<String>)
    ensures
        strings_view(r@) == option_words(Seq::new(parts@.len(), |i: int| parts@[i]@)),
{
    let ghost ps = Seq::new(parts@.len(), |i: int| parts@[i]@);
    let none: Vec<String> = Vec::new();
    proof {
        assert(strings_view(none@) =~= Seq::<Seq<char>>::empty());
    }
    if parts.len() != 2 {
        return none;
    }
    let key = lower_chars(&parts[0]);
    let v = &parts[1];
    let lowered = lower_chars(v);
    let on = is_word(&lowered, "true");
    proof {
        assert(ps[0] == parts@[0]@ && ps[1] == parts@[1]@);
    }
    if is_word(&key, "vcodec") {
        two("-c", v)
    } else if is_word(&key, "vquality") {
        two("-q", v)
    } else if is_word(&key, "aformat") {
        two("-f", v)
    } else if is_word(&key, "audio-only") {
        if on { one("-a") } else { none }
    } else if is_word(&key, "mute-audio") {
        if on { one("-m") } else { none }
    } else if is_word(&key, "twitter-gif") {
        if on { one("-g") } else { none }
    } else if is_word(&key, "tt-full-audio") {
        if on { one("-u") } else { none }
    } else if is_word(&key, "tt-h265") {
        if on { one("-h") } else { none }
    } else if is_word(&key, "dublang") {
        if !is_word(&lowered, "none") { two("-l", v) } else { none }
    } else if is_word(&key, "no-metadata") {
        if on { one("-n") } else { none }
    } else if is_word(&key, "fname-style") {
        two("-s", v)
    } else if is_word(&key, "instance") {
        two("-i", v)
    } else {
        none
    }
}

/// The words that the `[default]` section adds before those of a `get`
/// command: `key = value` lines become the matching flags; other lines are
/// passed over.
pub fn config_defaults(text: &str) -> (r: Vec<String>)
    ensures
        strings_view(r@) == defaults_spec(text@),
{
    let section = get_str(text, "default");
    let ls = lines(section.as_str());
    let ghost sls = lines_spec(section@);
    let mut out: Vec<String> = Vec::new();
    let mut i: usize = 0;
    proof {
        assert(strings_view(out@) =~= defaults_fold(sls, 0));
    }
    while i < ls.len()
        invariant
            ls@.len() == sls.len(),
            forall|j: int| 0 <= j < ls@.len() ==> #[trigger] ls@[j]@ == sls[j],
            i <= ls@.len(),
            strings_view(out@) == defaults_fold(sls, i as int),
        decreases ls@.len() - i,
    {
        let parts = split_option(&ls[i]);
        proof {
            assert(Seq::new(parts@.len(), |k: int| parts@[k]@) =~= option_parts(sls[i as int]));
        }
        let words = option_words_of(&parts);
        let ghost before = strings_view(out@);
        let mut k: usize = 0;
        while k < words.len()
            invariant
                k <= words@.len(),
                strings_view(out@) == before + strings_view(words@).take(k as int),
            decreases words@.len() - k,
        {
            let ghost old_out = out@;
            out.push(words[k].clone());
            proof {
                assert(strings_view(out@) =~= strings_view(old_out).push(words@[k as int]@));
                assert(strings_view(words@).take(k + 1) =~= strings_view(words@).take(k as int).push(
                    words@[k as int]@,
                ));
            }
            k = k + 1;
            proof {
                assert(strings_view(out@) =~= before + strings_view(words@).take(k as int));
            }
        }
        proof {
            assert(strings_view(words@).take(k as int) =~= strings_view(words@));
        }
        i = i + 1;
    }
    out
}

} // verus!
