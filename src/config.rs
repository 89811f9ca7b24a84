//! The list of calendar sources: its text form and its edits.
use vstd::prelude::*;

verus! {

pub open spec fn strings_view(v: Seq<String>) -> Seq<Seq<char>> {
    v.map_values(|s: String| s@)
}

/// The lines of `s`, split at each line feed; the text after the last line
/// feed is the last line, empty where the text ends with one.
pub open spec fn split_lines(s: Seq<char>) -> Seq<Seq<char>>
    decreases s.len(),
{
    if s.len() == 0 {
        seq![Seq::<char>::empty()]
    } else {
        let t = split_lines(s.drop_last());
        if s.last() == '\n' {
            t.push(Seq::empty())
        } else {
            t.update(t.len() - 1, t.last().push(s.last()))
        }
    }
}

/// `ls` without its leading empty lines.
pub open spec fn skip_empty(ls: Seq<Seq<char>>) -> Seq<Seq<char>>
    decreases ls.len(),
{
    if ls.len() > 0 && ls[0].len() == 0 {
        skip_empty(ls.drop_first())
    } else {
        ls
    }
}

proof fn lemma_split_lines_nonempty(s: Seq<char>)
    ensures
        split_lines(s).len() >= 1,
    decreases s.len(),
{
    if s.len() > 0 {
        lemma_split_lines_nonempty(s.drop_last());
    }
}

/// The calendar sources, one URL per entry.
pub struct Config {
    urls: Vec<String>,
}

impl View for Config {
    type V = Seq<Seq<char>>;

    closed spec fn view(&self) -> Seq<Seq<char>> {
        strings_view(self.urls@)
    }
}

impl Config {
    /// A configuration holding `urls`.
    pub fn new(urls: Vec<String>) -> (r: Config)
        ensures
            r@ == strings_view(urls@),
    {
        Config { urls }
    }

    /// Reads a configuration from its text: one URL per line; leading empty
    /// lines are left out.
    pub fn from_text(text: &str) -> (r: Config)
        ensures
            r@ == skip_empty(split_lines(text@)),
    {
        let n = text.unicode_len();
        let mut lines: Vec<String> = Vec::new();
        let mut start: usize = 0;
        let mut i: usize = 0;
        assert(text@.take(0) =~= Seq::<char>::empty());
        assert(strings_view(lines@).push(text@.subrange(0, 0)) =~= seq![Seq::<char>::empty()]);
        while i < n
            invariant
                n == text@.len(),
                start <= i <= n,
                strings_view(lines@).push(text@.subrange(start as int, i as int)) == split_lines(
                    text@.take(i as int),
                ),
            decreases n - i,
        {
            let ghost pre = text@.take(i as int);
            assert(text@.take(i + 1).drop_last() =~= pre);
            let ghost prev = strings_view(lines@);
            let ghost sub = text@.subrange(start as int, i as int);
            assert(text@.take(i + 1).last() == text@[i as int]);
            assert(split_lines(pre) == prev.push(sub));
            let c = text.get_char(i);
            if c == '\n' {
                let line = text.substring_char(start, i).to_owned();
                lines.push(line);
                assert(strings_view(lines@) =~= prev.push(sub));
                start = i + 1;
                assert(text@.subrange(start as int, i + 1) =~= Seq::<char>::empty());
                assert(split_lines(text@.take(i + 1)) == split_lines(pre).push(Seq::empty()));
                assert(strings_view(lines@).push(text@.subrange(start as int, i + 1))
                    =~= split_lines(text@.take(i + 1)));
            } else {
                assert(sub.push(c) =~= text@.subrange(start as int, i + 1));
                let ghost t = split_lines(pre);
                assert(split_lines(text@.take(i + 1)) == t.update(t.len() - 1, t.last().push(c)));
                assert(strings_view(lines@).push(text@.subrange(start as int, i + 1))
                    =~= split_lines(text@.take(i + 1)));
            }
            i = i + 1;
        }
        let ghost prev = strings_view(lines@);
        lines.push(text.substring_char(start, n).to_owned());
        assert(text@.take(n as int) =~= text@);
        assert(strings_view(lines@) =~= prev.push(text@.subrange(start as int, n as int)));
        let ghost all = strings_view(lines@);
        let mut k: usize = 0;
        assert(all.skip(0) =~= all);
        while k < lines.len() && lines[k].as_str().unicode_len() == 0
            invariant
                k <= lines.len(),
                all == strings_view(lines@),
                skip_empty(all) == skip_empty(all.skip(k as int)),
            decreases lines.len() - k,
        {
            assert(all.skip(k as int).drop_first() =~= all.skip(k + 1));
            k = k + 1;
        }
        assert(skip_empty(all.skip(k as int)) == all.skip(k as int));
        let mut urls: Vec<String> = Vec::new();
        let mut j: usize = k;
        while j < lines.len()
            invariant
                k <= j <= lines.len(),
                all == strings_view(lines@),
                strings_view(urls@) == all.subrange(k as int, j as int),
            decreases lines.len() - j,
        {
            let ghost prev_urls = strings_view(urls@);
            urls.push(lines[j].clone());
            assert(strings_view(urls@) =~= prev_urls.push(all[j as int]));
            assert(all.subrange(k as int, j + 1) =~= all.subrange(k as int, j as int).push(
                all[j as int],
            ));
            j = j + 1;
        }
        assert(all.subrange(k as int, lines.len() as int) =~= all.skip(k as int));
        Config { urls }
    }

    pub fn get_urls(&self) -> (r: &Vec<String>)
        ensures
            strings_view(r@) == self@,
    {
        &self.urls
    }

    /// Adds a url to the configuration
    pub fn add_line(&mut self, line: &str)
        ensures
            final(self)@ == old(self)@.push(line@),
    {
        let ghost prev = self.urls@;
        self.urls.push(line.to_owned());
        assert(strings_view(self.urls@) =~= strings_view(prev).push(line@));
    }

    /// Removes a url from the configuration
    pub fn remove_line(&mut self, idx: usize) -> (r: Result<(), String>)
        ensures
            r is Ok <==> idx < old(self)@.len(),
            r is Ok ==> final(self)@ == old(self)@.remove(idx as int),
            r is Err ==> final(self)@ == old(self)@,
            r is Err ==> r->Err_0@ == spec_range_message(old(self)@.len()),
    {
        let n = self.urls.len();
        if idx >= n {
            if n == 0 {
                return Err("no calendar has been added".to_owned());
            }
            let mut msg = "ID of calendar needs to be in range [0..".to_owned();
            let last = decimal(n - 1);
            msg.append(last.as_str());
            msg.append("]");
            return Err(msg);
        }
        let ghost prev = self.urls@;
        self.urls.remove(idx);
        assert(strings_view(self.urls@) =~= strings_view(prev).remove(idx as int));
        Ok(())
    }

    /// The configuration's text: its URLs joined by line feeds.
    pub fn to_text(&self) -> (r: String)
        ensures
            r@ == join_lines(self@),
    {
        let ghost ls = self@;
        let mut out = String::new();
        let mut i: usize = 0;
        while i < self.urls.len()
            invariant
                i <= self.urls.len(),
                ls == strings_view(self.urls@),
                out@ == join_lines(ls.take(i as int)),
            decreases self.urls.len() - i,
        {
            let ghost t = ls.take(i + 1);
            assert(t.drop_last() =~= ls.take(i as int));
            assert(t.last() == self.urls@[i as int]@);
            if i > 0 {
                proof {
                    reveal_strlit("\n");
                }
                out.append("\n");
            }
            out.append(self.urls[i].as_str());
            proof {
                if i == 0 {
                    assert(ls.take(0) =~= Seq::<Seq<char>>::empty());
                }
            }
            assert(out@ =~= join_lines(t));
            i = i + 1;
        }
        assert(ls.take(self.urls.len() as int) =~= ls);
        out
    }
}

/// The message of a removal at an index out of range, for a list of `n`
/// entries.
pub open spec fn spec_range_message(n: nat) -> Seq<char> {
    if n == 0 {
        "no calendar has been added"@
    } else {
        "ID of calendar needs to be in range [0.."@ + decimal_text((n - 1) as nat) + "]"@
    }
}

/// The decimal digit of `d`.
pub open spec fn digit_char(d: nat) -> char {
    if d == 0 {
        '0'
    } else if d == 1 {
        '1'
    } else if d == 2 {
        '2'
    } else if d == 3 {
        '3'
    } else if d == 4 {
        '4'
    } else if d == 5 {
        '5'
    } else if d == 6 {
        '6'
    } else if d == 7 {
        '7'
    } else if d == 8 {
        '8'
    } else {
        '9'
    }
}

/// `n` written in decimal, without leading zeros.
pub open spec fn decimal_text(n: nat) -> Seq<char>
    decreases n,
{
    if n < 10 {
        seq![digit_char(n)]
    } else {
        decimal_text(n / 10).push(digit_char(n % 10))
    }
}

fn digit_str(d: usize) -> (r: &'static str)
    requires
        d < 10,
    ensures
        r@ == seq![digit_char(d as nat)],
{
    proof {
        reveal_strlit("0");
        reveal_strlit("1");
        reveal_strlit("2");
        reveal_strlit("3");
        reveal_strlit("4");
        reveal_strlit("5");
        reveal_strlit("6");
        reveal_strlit("7");
        reveal_strlit("8");
        reveal_strlit("9");
    }
    let r = match d {
        0 => "0",
        1 => "1",
        2 => "2",
        3 => "3",
        4 => "4",
        5 => "5",
        6 => "6",
        7 => "7",
        8 => "8",
        _ => "9",
    };
    assert(r@ =~= seq![digit_char(d as nat)]);
    r
}

/// `n` written in decimal.
pub fn decimal(n: usize) -> (r: String)
    ensures
        r@ == decimal_text(n as nat),
    decreases n,
{
    if n < 10 {
        digit_str(n).to_owned()
    } else {
        let mut s = decimal(n / 10);
        s.append(digit_str(n % 10));
        assert(s@ =~= decimal_text(n as nat));
        s
    }
}

/// The lines `ls` joined by line feeds.
pub open spec fn join_lines(ls: Seq<Seq<char>>) -> Seq<char>
    decreases ls.len(),
{
    if ls.len() == 0 {
        Seq::empty()
    } else if ls.len() == 1 {
        ls[0]
    } else {
        join_lines(ls.drop_last()).push('\n') + ls.last()
    }
}

/// Text without a line feed extends the last line.
proof fn lemma_split_lines_append(s: Seq<char>, b: Seq<char>)
    requires
        !b.contains('\n'),
    ensures
        split_lines(s + b) == split_lines(s).update(
            split_lines(s).len() - 1,
            split_lines(s).last() + b,
        ),
    decreases b.len(),
{
    lemma_split_lines_nonempty(s);
    if b.len() == 0 {
        assert(s + b =~= s);
        assert(split_lines(s).last() + b =~= split_lines(s).last());
        assert(split_lines(s).update(split_lines(s).len() - 1, split_lines(s).last())
            =~= split_lines(s));
    } else {
        let c = b.last();
        let b0 = b.drop_last();
        assert(!b0.contains('\n')) by {
            if b0.contains('\n') {
                let m = choose|m: int| 0 <= m < b0.len() && b0[m] == '\n';
                assert(b[m] == '\n');
            }
        }
        assert(c != '\n') by {
            assert(b[b.len() - 1] == c);
        }
        lemma_split_lines_append(s, b0);
        assert((s + b).drop_last() =~= s + b0);
        assert((s + b).last() == c);
        let t = split_lines(s);
        lemma_split_lines_nonempty(s + b0);
        assert(split_lines(s + b) =~= t.update(t.len() - 1, t.last() + b)) by {
            assert(t.last() + b0 + seq![c] =~= t.last() + b);
            assert((t.last() + b0).push(c) =~= t.last() + b);
        }
    }
}

proof fn lemma_split_join(ls: Seq<Seq<char>>)
    requires
        ls.len() > 0,
        forall|i: int| 0 <= i < ls.len() ==> !(#[trigger] ls[i]).contains('\n'),
    ensures
        split_lines(join_lines(ls)) == ls,
    decreases ls.len(),
{
    if ls.len() == 1 {
        lemma_split_lines_append(Seq::empty(), ls[0]);
        assert(Seq::<char>::empty() + ls[0] =~= ls[0]);
        assert(split_lines(join_lines(ls)) =~= ls);
    } else {
        let init = ls.drop_last();
        assert forall|i: int| 0 <= i < init.len() implies !(#[trigger] init[i]).contains('\n') by {
            assert(init[i] == ls[i]);
        }
        lemma_split_join(init);
        let s = join_lines(init).push('\n');
        assert(ls[ls.len() - 1] == ls.last());
        lemma_split_lines_append(s, ls.last());
        assert(s.drop_last() =~= join_lines(init));
        assert(split_lines(s) == init.push(Seq::empty()));
        assert(Seq::<char>::empty() + ls.last() =~= ls.last());
        assert(split_lines(join_lines(ls)) =~= ls);
    }
}

/// A configuration's text reads back as the same configuration, where no
/// URL holds a line feed and the first one is not empty (as is the case
/// for every configuration read from text).
pub proof fn lemma_text_round_trip(ls: Seq<Seq<char>>)
    requires
        forall|i: int| 0 <= i < ls.len() ==> !(#[trigger] ls[i]).contains('\n'),
        ls.len() == 0 || ls[0].len() > 0,
    ensures
        skip_empty(split_lines(join_lines(ls))) == ls,
{
    if ls.len() == 0 {
        let e = seq![Seq::<char>::empty()];
        assert(split_lines(Seq::<char>::empty()) == e);
        assert(e.drop_first() =~= Seq::<Seq<char>>::empty());
        assert(skip_empty(e) == skip_empty(e.drop_first()));
    } else {
        lemma_split_join(ls);
    }
}

/// Relies on `dirs::home_dir`: the user's home directory, where one is
/// known and its path is valid UTF-8. Nothing is promised of it.
#[verifier::external_body]
fn home_dir() -> (r: Option<String>) {
    dirs::home_dir().and_then(|p| p.to_str().map(|s| s.to_owned()))
}

/// `a` followed by `b`.
fn joined(a: &str, b: &str) -> (r: String)
    ensures
        r@ == a@ + b@,
{
    let mut s = a.to_owned();
    s.append(b);
    s
}

/// The configuration directory under the home directory `home`.
pub fn cfg_dir_in(home: &str) -> (r: String)
    ensures
        r@ == home@ + "/.config/sc/"@,
{
    joined(home, "/.config/sc/")
}

/// The cache directory under the home directory `home`.
pub fn cache_dir_in(home: &str) -> (r: String)
    ensures
        r@ == home@ + "/.cache/sc/"@,
{
    joined(home, "/.cache/sc/")
}

/// The configuration file under the home directory `home`.
pub fn cfg_path_in(home: &str) -> (r: String)
    ensures
        r@ == home@ + "/.config/sc/"@ + "config"@,
{
    let dir = cfg_dir_in(home);
    joined(dir.as_str(), "config")
}

/// The configuration directory, where the home directory is known.
pub fn cfg_dir() -> (r: Option<String>)
    ensures
        r is Some ==> exists|h: Seq<char>| r->Some_0@ == h + "/.config/sc/"@,
{
    match home_dir() {
        None => None,
        Some(h) => Some(cfg_dir_in(h.as_str())),
    }
}

/// The cache directory, where the home directory is known.
pub fn cache_dir() -> (r: Option<String>)
    ensures
        r is Some ==> exists|h: Seq<char>| r->Some_0@ == h + "/.cache/sc/"@,
{
    match home_dir() {
        None => None,
        Some(h) => Some(cache_dir_in(h.as_str())),
    }
}

/// The configuration file, where the home directory is known.
pub fn cfg_path() -> (r: Option<String>)
    ensures
        r is Some ==> exists|h: Seq<char>| r->Some_0@ == h + "/.config/sc/"@ + "config"@,
{
    match home_dir() {
        None => None,
        Some(h) => Some(cfg_path_in(h.as_str())),
    }
}

/// A character that may stand in a cache file's name as it is.
pub open spec fn is_name_char(c: char) -> bool {
    ('a' <= c <= 'z') || ('A' <= c <= 'Z') || ('0' <= c <= '9') || c == '.' || c == '-'
}

/// The cache file name of a calendar URL, a naming of this crate's own
/// choosing: the URL with every character other than ASCII letters, digits,
/// `.` and `-` replaced by `_`.
pub open spec fn spec_cache_name(url: Seq<char>) -> Seq<char> {
    url.map_values(|c: char| if is_name_char(c) { c } else { '_' })
}

pub fn cache_name(url: &str) -> (r: String)
    ensures
        r@ == spec_cache_name(url@),
{
    let n = url.unicode_len();
    let mut out = String::new();
    let mut i: usize = 0;
    while i < n
        invariant
            n == url@.len(),
            i <= n,
            out@ == spec_cache_name(url@).take(i as int),
        decreases n - i,
    {
        let c = url.get_char(i);
        let ghost prev = out@;
        if ('a' <= c && c <= 'z') || ('A' <= c && c <= 'Z') || ('0' <= c && c <= '9') || c == '.'
            || c == '-' {
            out.append(url.substring_char(i, i + 1));
            assert(url@.subrange(i as int, i + 1) =~= seq![c]);
        } else {
            proof {
                reveal_strlit("_");
            }
            out.append("_");
        }
        assert(out@ =~= spec_cache_name(url@).take(i + 1));
        i = i + 1;
    }
    assert(spec_cache_name(url@).take(n as int) =~= spec_cache_name(url@));
    out
}

/// The cache file of a calendar URL in the cache directory `dir`.
pub fn cache_path_in(dir: &str, url: &str) -> (r: String)
    ensures
        r@ == dir@ + spec_cache_name(url@),
{
    let name = cache_name(url);
    joined(dir, name.as_str())
}

} // verus!
