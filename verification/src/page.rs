use vstd::prelude::*;
use vstd::string::StringExecFns;

use crate::commands::chars_of;

verus! {

/// The smallest console height a page is drawn on.
pub const MIN_HEIGHT: usize = 7;

/// The smallest console width a page is drawn on.
pub const MIN_WIDTH: usize = 75;

/// The entries `items[from]`, `items[from + 1]`, ... among the first `n` after `from - 1` that
/// exist, each followed by a newline.
pub open spec fn following_lines(items: Seq<Seq<char>>, from: int, n: nat) -> Seq<char>
    decreases n,
{
    if n == 0 {
        Seq::empty()
    } else {
        following_lines(items, from, (n - 1) as nat) + (if from + n - 1 < items.len() {
            items[from + n - 1] + seq!['\n']
        } else {
            Seq::empty()
        })
    }
}

/// The texts of a list of strings.
pub open spec fn texts(v: Seq<String>) -> Seq<Seq<char>> {
    v.map_values(|t: String| t@)
}

/// The selected entry between `>` and `<`, then the entries after it that fit in a page of
/// `rows` list rows.
pub open spec fn list_body(items: Seq<Seq<char>>, pline: int, rows: nat) -> Seq<char> {
    items[pline] + "<\n"@ + following_lines(items, pline + 1, rows)
}

/// The text of a menu page: the prompt, the selected page title marked, and the titles after
/// it that fit in a console `height` rows high.
pub open spec fn menu_spec(titles: Seq<Seq<char>>, pline: int, height: int) -> Seq<char> {
    "Choose a Page:\n>"@ + list_body(titles, pline, (height - 6) as nat)
}

/// The text of a selection page.
pub open spec fn select_list_spec(
    question: Seq<char>,
    answers: Seq<Seq<char>>,
    pline: int,
    height: int,
) -> Seq<char> {
    question + ":\n>"@ + if answers.len() == 0 {
        "Nothing in here"@ + "<\n"@
    } else {
        list_body(answers, pline, (height - 6) as nat)
    }
}

/// The text of a searchable selection page, whose list holds the answers that `hits` names.
pub open spec fn search_select_spec(
    search: Seq<char>,
    question: Seq<char>,
    hits: Seq<usize>,
    answers: Seq<Seq<char>>,
    pline: int,
    height: int,
) -> Seq<char> {
    question + ":\nSearch: \""@ + search + "\"\n>"@ + if hits.len() == 0 {
        "Nothing found"@ + "<\n"@
    } else {
        list_body(hits.map_values(|h: usize| answers[h as int]), pline, (height - 7) as nat)
    }
}

/// The text of a text-input page.
pub open spec fn text_input_spec(question: Seq<char>, entered: Seq<char>) -> Seq<char> {
    question + ":\n>"@ + entered + "<"@
}

/// Appends the selected entry `items[pline]` marked with `<`, then the entries after it that
/// exist among the next `rows`, one per line.
fn push_list(s: &mut String, items: &Vec<String>, pline: usize, rows: usize)
    requires
        pline < items@.len(),
    ensures
        final(s)@ == old(s)@ + list_body(texts(items@), pline as int, rows as nat),
{
    let ghost model = texts(items@);
    s.append(items[pline].as_str());
    s.append("<\n");
    let ghost head = s@;
    let len = items.len();
    let mut i: usize = 0;
    while i < rows
        invariant
            i <= rows,
            pline < len == items@.len(),
            model == texts(items@),
            s@ == head + following_lines(model, pline + 1, i as nat),
        decreases rows - i,
    {
        if i < len - pline - 1 {
            s.append(items[pline + i + 1].as_str());
            s.append("\n");
        }
        proof {
            reveal_strlit("\n");
        }
        assert(s@ =~= head + following_lines(model, pline + 1, (i + 1) as nat));
        i = i + 1;
    }
    assert(old(s)@ + list_body(model, pline as int, rows as nat) =~= head + following_lines(
        model,
        pline + 1,
        rows as nat,
    ));
}

/// The text that a menu page shows: "Choose a Page:", the title of page `pline` between `>`
/// and `<`, then the titles of the pages after it that fit in a console `height` rows high
/// (six rows go to the frame).
pub fn menu_text(titles: &Vec<String>, pline: usize, height: usize) -> (s: String)
    requires
        pline < titles@.len(),
        height >= 6,
    ensures
        s@ == menu_spec(texts(titles@), pline as int, height as int),
{
    let mut s = String::from_str("Choose a Page:\n>");
    push_list(&mut s, titles, pline, height - 6);
    s
}

/// The text that a selection page shows: the question and a colon, then the answer `pline`
/// between `>` and `<` and the answers after it that fit in a console `height` rows high; with
/// no answers, "Nothing in here" in their place.
pub fn select_list_text(question: &String, answers: &Vec<String>, pline: usize, height: usize) -> (s:
    String)
    requires
        answers@.len() > 0 ==> pline < answers@.len() && height >= 6,
    ensures
        s@ == select_list_spec(question@, texts(answers@), pline as int, height as int),
{
    let mut s = question.clone();
    s.append(":\n>");
    if answers.len() == 0 {
        s.append("Nothing in here");
        s.append("<\n");
    } else {
        push_list(&mut s, answers, pline, height - 6);
    }
    s
}

/// The text that a searchable selection page shows: the question, the search between quotes,
/// then the answer that hit `pline` names between `>` and `<` and the answers that the hits
/// after it name, as many as fit in a console `height` rows high; with no hits, "Nothing
/// found" in their place.
pub fn search_select_text(
    search: &String,
    question: &String,
    hits: &Vec<usize>,
    answers: &Vec<String>,
    pline: usize,
    height: usize,
) -> (s: String)
    requires
        hits@.len() > 0 ==> pline < hits@.len() && height >= 7,
        forall|k: int| 0 <= k < hits@.len() ==> hits@[k] < answers@.len(),
    ensures
        s@ == search_select_spec(
            search@,
            question@,
            hits@,
            texts(answers@),
            pline as int,
            height as int,
        ),
{
    let mut s = question.clone();
    s.append(":\nSearch: \"");
    s.append(search.as_str());
    s.append("\"\n>");
    if hits.len() == 0 {
        s.append("Nothing found");
        s.append("<\n");
    } else {
        let mut picked: Vec<String> = Vec::new();
        let mut k: usize = 0;
        while k < hits.len()
            invariant
                k <= hits@.len(),
                forall|j: int| 0 <= j < hits@.len() ==> hits@[j] < answers@.len(),
                picked@.len() == k,
                forall|j: int| 0 <= j < k ==> #[trigger] picked@[j]@ == answers@[hits@[j] as int]@,
            decreases hits@.len() - k,
        {
            let t = answers[hits[k]].clone();
            picked.push(t);
            k = k + 1;
        }
        assert(texts(picked@) =~= hits@.map_values(|h: usize| texts(answers@)[h as int]));
        push_list(&mut s, &picked, pline, height - 7);
    }
    s
}

/// The text that a text-input page shows: the question and a colon, then what was entered
/// between `>` and `<`.
pub fn text_input_text(question: &String, entered: &String) -> (s: String)
    ensures
        s@ == text_input_spec(question@, entered@),
{
    let mut s = question.clone();
    s.append(":\n>");
    s.append(entered.as_str());
    s.append("<");
    s
}

/// The lowercase form of a text, as `str::to_lowercase` gives it (Unicode's lowercase mapping,
/// a function of the text alone).
pub uninterp spec fn lowercase(s: Seq<char>) -> Seq<char>;

/// `str::to_lowercase`: its result is the text's `lowercase`.
#[verifier::external_body]
fn to_lower(s: &str) -> (r: String)
    ensures
        r@ == lowercase(s@),
{
    s.to_lowercase()
}

/// `n` occurs in `h` as a run of consecutive characters.
pub open spec fn has_infix(h: Seq<char>, n: Seq<char>) -> bool {
    exists|i: int| 0 <= i && i + n.len() <= h.len() && #[trigger] h.subrange(i, i + n.len()) == n
}

/// `n` occurs in `h` at position `i`.
fn infix_at(h: &Vec<char>, n: &Vec<char>, i: usize) -> (r: bool)
    requires
        i + n@.len() <= h@.len(),
    ensures
        r == (h@.subrange(i as int, i + n@.len()) == n@),
{
    let len = n.len();
    let hl = h.len();
    let mut j: usize = 0;
    while j < len
        invariant
            len == n@.len(),
            hl == h@.len(),
            i + len <= hl,
            j <= len,
            forall|q: int| 0 <= q < j ==> h@[i + q] == n@[q],
        decreases len - j,
    {
        if h[i + j] != n[j] {
            assert(h@.subrange(i as int, i + len)[j as int] != n@[j as int]);
            return false;
        }
        j = j + 1;
    }
    assert(h@.subrange(i as int, i + len) =~= n@);
    true
}

/// Whether `n` occurs in `h`.
fn contains_chars(h: &Vec<char>, n: &Vec<char>) -> (r: bool)
    ensures
        r == has_infix(h@, n@),
{
    if n.len() > h.len() {
        return false;
    }
    let last = h.len() - n.len();
    let mut i: usize = 0;
    while i <= last
        invariant_except_break
            i <= last,
        invariant
            last == h@.len() - n@.len(),
            n@.len() <= h@.len(),
            forall|q: int| 0 <= q < i ==> #[trigger] h@.subrange(q, q + n@.len()) != n@,
        ensures
            forall|q: int| 0 <= q <= last ==> #[trigger] h@.subrange(q, q + n@.len()) != n@,
        decreases last + 1 - i,
    {
        if infix_at(h, n, i) {
            return true;
        }
        if i == last {
            break;
        }
        i = i + 1;
    }
    assert forall|q: int| 0 <= q && q + n@.len() <= h@.len() implies #[trigger] h@.subrange(
        q,
        q + n@.len(),
    ) != n@ by {
        assert(q <= last);
    }
    false
}

/// The positions, in order, of the texts among the first `k` of `hays` in which `needle`
/// occurs.
pub open spec fn infix_hits(needle: Seq<char>, hays: Seq<Seq<char>>, k: nat) -> Seq<int>
    decreases k,
{
    if k == 0 {
        Seq::empty()
    } else {
        infix_hits(needle, hays, (k - 1) as nat) + if has_infix(hays[k - 1], needle) {
            seq![k - 1]
        } else {
            Seq::empty()
        }
    }
}

/// The positions of the answers that a search hits: those in which the search occurs, both
/// lowercased.
pub open spec fn search_hits_spec(search: Seq<char>, answers: Seq<Seq<char>>) -> Seq<int> {
    infix_hits(
        lowercase(search),
        answers.map_values(|t: Seq<char>| lowercase(t)),
        answers.len(),
    )
}

/// Every text occurs in itself, and a text occurs wherever it is put between two others.
pub proof fn law_infix_of_itself(a: Seq<char>, n: Seq<char>, b: Seq<char>)
    ensures
        has_infix(n, n),
        has_infix(a + n + b, n),
        has_infix(a, Seq::empty()),
{
    assert(n.subrange(0, 0int + n.len()) =~= n);
    assert((a + n + b).subrange(a.len() as int, (a.len() + n.len()) as int) =~= n);
    let e = Seq::<char>::empty();
    assert(a.subrange(0, 0int + e.len()) =~= e);
}

proof fn lemma_infix_hits(needle: Seq<char>, hays: Seq<Seq<char>>, k: nat)
    requires
        k <= hays.len(),
    ensures
        forall|x: int|
            #![trigger infix_hits(needle, hays, k).contains(x)]
            infix_hits(needle, hays, k).contains(x) <==> (0 <= x < k && has_infix(
                hays[x],
                needle,
            )),
        forall|a: int, b: int|
            0 <= a < b < infix_hits(needle, hays, k).len() ==> infix_hits(needle, hays, k)[a]
                < infix_hits(needle, hays, k)[b],
        forall|a: int|
            0 <= a < infix_hits(needle, hays, k).len() ==> 0 <= #[trigger] infix_hits(
                needle,
                hays,
                k,
            )[a] < k,
    decreases k,
{
    if k > 0 {
        lemma_infix_hits(needle, hays, (k - 1) as nat);
        let prev = infix_hits(needle, hays, (k - 1) as nat);
        let cur = infix_hits(needle, hays, k);
        assert forall|x: int| #[trigger] cur.contains(x) <==> (0 <= x < k && has_infix(
            hays[x],
            needle,
        )) by {
            if cur.contains(x) {
                let w = choose|w: int| 0 <= w < cur.len() && cur[w] == x;
                if w < prev.len() {
                    assert(prev.contains(x));
                }
            }
            if 0 <= x < k && has_infix(hays[x], needle) {
                if x < k - 1 {
                    assert(prev.contains(x));
                    let w = choose|w: int| 0 <= w < prev.len() && prev[w] == x;
                    assert(cur[w] == x);
                } else {
                    assert(cur[prev.len() as int] == x);
                }
            }
        }
    }
}

/// The hits of a search are exactly the texts it occurs in, listed once each in increasing
/// order.
pub proof fn law_infix_hits(needle: Seq<char>, hays: Seq<Seq<char>>)
    ensures
        forall|x: int|
            #![trigger infix_hits(needle, hays, hays.len()).contains(x)]
            infix_hits(needle, hays, hays.len()).contains(x) <==> (0 <= x < hays.len()
                && has_infix(hays[x], needle)),
        forall|a: int, b: int|
            0 <= a < b < infix_hits(needle, hays, hays.len()).len() ==> infix_hits(
                needle,
                hays,
                hays.len(),
            )[a] < infix_hits(needle, hays, hays.len())[b],
{
    lemma_infix_hits(needle, hays, hays.len());
}

/// A search hits answer `k` exactly when the search, lowercased, occurs in the answer,
/// lowercased; in particular every answer is hit by a search for its own text.
pub proof fn law_search_hits(search: Seq<char>, answers: Seq<Seq<char>>, k: int)
    requires
        0 <= k < answers.len(),
    ensures
        search_hits_spec(search, answers).contains(k) <==> has_infix(
            lowercase(answers[k]),
            lowercase(search),
        ),
        search_hits_spec(answers[k], answers).contains(k),
{
    let low = answers.map_values(|t: Seq<char>| lowercase(t));
    lemma_infix_hits(lowercase(search), low, answers.len());
    lemma_infix_hits(lowercase(answers[k]), low, answers.len());
    assert(low[k] == lowercase(answers[k]));
    law_infix_of_itself(Seq::empty(), lowercase(answers[k]), Seq::empty());
}

/// The positions, in order, of the texts in `hays` in which `needle` occurs.
pub fn infix_positions(needle: &Vec<char>, hays: &Vec<Vec<char>>) -> (r: Vec<usize>)
    ensures
        r@.map_values(|i: usize| i as int) == infix_hits(
            needle@,
            hays@.map_values(|h: Vec<char>| h@),
            hays@.len(),
        ),
{
    let ghost model = hays@.map_values(|h: Vec<char>| h@);
    let mut r: Vec<usize> = Vec::new();
    let n = hays.len();
    let mut k: usize = 0;
    while k < n
        invariant
            n == hays@.len(),
            k <= n,
            model == hays@.map_values(|h: Vec<char>| h@),
            r@.map_values(|i: usize| i as int) == infix_hits(needle@, model, k as nat),
        decreases n - k,
    {
        let ghost before = r@;
        if contains_chars(&hays[k], needle) {
            r.push(k);
        }
        assert(r@.map_values(|i: usize| i as int) =~= infix_hits(needle@, model, (k + 1) as nat))
            by {
            assert(before.map_values(|i: usize| i as int) == infix_hits(needle@, model, k as nat));
        }
        k = k + 1;
    }
    r
}

/// The positions, in order, of the answers that the search hits, as a searchable selection
/// page lists them after its search changes.
pub fn search_hits(search: &String, answers: &Vec<String>) -> (r: Vec<usize>)
    ensures
        r@.map_values(|i: usize| i as int) == search_hits_spec(search@, texts(answers@)),
{
    let needle = chars_of(to_lower(search.as_str()).as_str());
    let mut hays: Vec<Vec<char>> = Vec::new();
    let n = answers.len();
    let mut k: usize = 0;
    while k < n
        invariant
            n == answers@.len(),
            k <= n,
            hays@.len() == k,
            forall|j: int|
                0 <= j < k ==> #[trigger] hays@[j]@ == lowercase(answers@[j]@),
        decreases n - k,
    {
        hays.push(chars_of(to_lower(answers[k].as_str()).as_str()));
        k = k + 1;
    }
    let r = infix_positions(&needle, &hays);
    assert(hays@.map_values(|h: Vec<char>| h@) =~= texts(answers@).map_values(
        |t: Seq<char>| lowercase(t),
    ));
    r
}

/// The kind of a page, as far as its keys go.
#[derive(Clone, Copy, PartialEq, Eq, Structural)]
pub enum PageKind {
    Info,
    Confirm,
    Menu,
    Select,
    SearchSelect,
    TextInput,
    Custom,
}

/// What an open page does about a key.
#[derive(Clone, Copy, PartialEq, Eq, Structural)]
pub enum PageAction {
    /// Leave the page; a searchable selection page first clears its search and lists every
    /// answer again.
    Close,
    /// Open the page that the selected entry, the entered text, the confirmation or the custom
    /// renderer leads to, then draw this page again.
    Open,
    /// Draw the page again, with nothing opened.
    Redraw,
    /// The selected line moved: draw the page again at it.
    Moved,
    /// Remove the last character of the entered text or of the search (a search is then run
    /// again), and draw the page again.
    Erase,
    /// Append the character to the entered text or to the search (a search is then run
    /// again), and draw the page again.
    Type(char),
    /// Hand the key to the custom renderer.
    Custom,
    /// Nothing to do.
    Ignore,
}

/// The key codes that every page knows.
pub const KEY_LEFT: u16 = 0x25;
pub const KEY_UP: u16 = 0x26;
pub const KEY_RIGHT: u16 = 0x27;
pub const KEY_DOWN: u16 = 0x28;
pub const KEY_BACK: u16 = 0x08;
pub const KEY_RETURN: u16 = 0x0D;

/// Whether a page of this kind selects among listed entries.
pub open spec fn is_list(kind: PageKind) -> bool {
    kind == PageKind::Menu || kind == PageKind::Select || kind == PageKind::SearchSelect
}

/// The selected line after a key, and what to do, on a page of `kind` with `entries` entries
/// (lines for text pages) whose selected line is `line`.
pub open spec fn page_key_spec(kind: PageKind, entries: nat, line: nat, key: u16, ch: char) -> (
    nat,
    PageAction,
) {
    if key == KEY_LEFT {
        (line, PageAction::Close)
    } else if key == KEY_RIGHT {
        if kind == PageKind::Info || (is_list(kind) && entries == 0) {
            (line, PageAction::Redraw)
        } else {
            (line, PageAction::Open)
        }
    } else if key == KEY_UP {
        if line > 0 {
            ((line - 1) as nat, PageAction::Moved)
        } else {
            (line, PageAction::Ignore)
        }
    } else if key == KEY_DOWN {
        if entries > 0 && line < entries - 1 {
            (line + 1, PageAction::Moved)
        } else {
            (line, PageAction::Ignore)
        }
    } else if kind == PageKind::TextInput {
        if key == KEY_BACK {
            (line, PageAction::Erase)
        } else if key == KEY_RETURN {
            (line, PageAction::Redraw)
        } else {
            (line, PageAction::Type(ch))
        }
    } else if kind == PageKind::SearchSelect {
        if key == KEY_BACK {
            (0, PageAction::Erase)
        } else if key == KEY_RETURN {
            (line, PageAction::Ignore)
        } else {
            (0, PageAction::Type(ch))
        }
    } else if kind == PageKind::Custom {
        (line, PageAction::Custom)
    } else {
        (line, PageAction::Ignore)
    }
}

/// What each key means on an open page, whatever its state:
/// - left always closes the page and keeps the line;
/// - right opens what the page leads to, keeping the line, on every page but an info page or a
///   list with no entries, where it only draws the page again;
/// - up moves one line up unless on the first line, down one line down unless on the last
///   entry, and nothing else changes;
/// - a custom page hands any other key to its renderer;
/// - on a text-input page any other key edits the text and keeps the line; on a search page it
///   edits the search and goes back to the first line, but for return, which does nothing.
pub proof fn law_page_keys(kind: PageKind, entries: nat, line: nat, key: u16, ch: char)
    ensures
        page_key_spec(kind, entries, line, KEY_LEFT, ch) == (line, PageAction::Close),
        (kind != PageKind::Info && !((kind == PageKind::Menu || kind == PageKind::Select
            || kind == PageKind::SearchSelect) && entries == 0)) ==> page_key_spec(
            kind,
            entries,
            line,
            KEY_RIGHT,
            ch,
        ) == (line, PageAction::Open),
        (kind == PageKind::Info || ((kind == PageKind::Menu || kind == PageKind::Select
            || kind == PageKind::SearchSelect) && entries == 0)) ==> page_key_spec(
            kind,
            entries,
            line,
            KEY_RIGHT,
            ch,
        ) == (line, PageAction::Redraw),
        line > 0 ==> page_key_spec(kind, entries, line, KEY_UP, ch) == ((line - 1) as nat,
            PageAction::Moved),
        line == 0 ==> page_key_spec(kind, entries, line, KEY_UP, ch) == (line, PageAction::Ignore),
        line + 1 < entries ==> page_key_spec(kind, entries, line, KEY_DOWN, ch) == (line + 1,
            PageAction::Moved),
        line + 1 >= entries ==> page_key_spec(kind, entries, line, KEY_DOWN, ch) == (line,
            PageAction::Ignore),
        kind == PageKind::TextInput && key != KEY_LEFT && key != KEY_RIGHT && key != KEY_UP && key
            != KEY_DOWN && key != KEY_BACK && key != KEY_RETURN ==> page_key_spec(
            kind,
            entries,
            line,
            key,
            ch,
        ) == (line, PageAction::Type(ch)),
        kind == PageKind::TextInput ==> page_key_spec(kind, entries, line, KEY_BACK, ch) == (line,
            PageAction::Erase),
        kind == PageKind::SearchSelect && key != KEY_LEFT && key != KEY_RIGHT && key != KEY_UP
            && key != KEY_DOWN && key != KEY_BACK && key != KEY_RETURN ==> page_key_spec(
            kind,
            entries,
            line,
            key,
            ch,
        ) == (0nat, PageAction::Type(ch)),
        kind == PageKind::SearchSelect ==> page_key_spec(kind, entries, line, KEY_BACK, ch) == (
            0nat,
            PageAction::Erase,
        ),
        kind == PageKind::SearchSelect ==> page_key_spec(kind, entries, line, KEY_RETURN, ch) == (
            line,
            PageAction::Ignore,
        ),
        (kind == PageKind::Info || kind == PageKind::Confirm || kind == PageKind::Menu || kind
            == PageKind::Select) && key != KEY_LEFT && key != KEY_RIGHT && key != KEY_UP && key
            != KEY_DOWN ==> page_key_spec(kind, entries, line, key, ch) == (line,
            PageAction::Ignore),
        kind == PageKind::Custom && key != KEY_LEFT && key != KEY_RIGHT && key != KEY_UP && key
            != KEY_DOWN ==> page_key_spec(kind, entries, line, key, ch) == (line,
            PageAction::Custom),
{
}

/// One step of an open page: given the key pressed (its code and character), the new
/// selected line and what to do. The caller reads keys, performs the action and draws.
pub fn page_key(kind: PageKind, entries: usize, line: usize, key: u16, ch: char) -> (r: (
    usize,
    PageAction,
))
    ensures
        (r.0 as nat, r.1) == page_key_spec(kind, entries as nat, line as nat, key, ch),
{
    let is_list_kind = match kind {
        PageKind::Menu | PageKind::Select | PageKind::SearchSelect => true,
        _ => false,
    };
    if key == KEY_LEFT {
        (line, PageAction::Close)
    } else if key == KEY_RIGHT {
        match kind {
            PageKind::Info => (line, PageAction::Redraw),
            _ => if is_list_kind && entries == 0 {
                (line, PageAction::Redraw)
            } else {
                (line, PageAction::Open)
            },
        }
    } else if key == KEY_UP {
        if line > 0 {
            (line - 1, PageAction::Moved)
        } else {
            (line, PageAction::Ignore)
        }
    } else if key == KEY_DOWN {
        if entries > 0 && line < entries - 1 {
            (line + 1, PageAction::Moved)
        } else {
            (line, PageAction::Ignore)
        }
    } else {
        match kind {
            PageKind::TextInput => if key == KEY_BACK {
                (line, PageAction::Erase)
            } else if key == KEY_RETURN {
                (line, PageAction::Redraw)
            } else {
                (line, PageAction::Type(ch))
            },
            PageKind::SearchSelect => if key == KEY_BACK {
                (0, PageAction::Erase)
            } else if key == KEY_RETURN {
                (line, PageAction::Ignore)
            } else {
                (0, PageAction::Type(ch))
            },
            PageKind::Custom => (line, PageAction::Custom),
            _ => (line, PageAction::Ignore),
        }
    }
}

} // verus!
