//! From cron expressions to the calendar expressions of systemd timers.
use crate::number::{
    decimal, decimal_text, lemma_decimal_reads_back, lemma_digits_value_bounds, padded, padded_text,
    parse_unsigned, unsigned, unsigned_error, unsigned_fault,
};
use crate::text::{
    contains_char, find_char, has_char, is_digit, is_white, is_word, join, joined, law_joining_goes_on,
    lemma_find_char, lemma_first_word,
    lemma_joined_has_separator, lemma_one_word, lemma_pieces_of_joined, pieces, same, split_on,
    split_whitespace, starts_with, string_views, strip_prefix, views, words,
};
use vstd::prelude::*;

verus! {

/// Why a cron expression has no calendar expression.
#[derive(Debug, PartialEq, Eq)]
pub enum CronError {
    /// It has another number of fields than five.
    FieldCount(usize),
    /// A day of the week in a range or a list cannot be read; this is said about it.
    DayOfWeek(String),
}

#[verifier::ext_equal]
pub enum CronFault {
    FieldCount(usize),
    DayOfWeek(Seq<char>),
}

impl View for CronError {
    type V = CronFault;

    open spec fn view(&self) -> CronFault {
        match *self {
            CronError::FieldCount(n) => CronFault::FieldCount(n),
            CronError::DayOfWeek(s) => CronFault::DayOfWeek(s@),
        }
    }
}

/// The step of a field `*/n`.
pub open spec fn step_of(f: Seq<char>) -> Option<int> {
    if starts_with(f, "*/"@) {
        unsigned(f.skip("*/"@.len() as int), u32::MAX as int)
    } else {
        None
    }
}

/// The numbers from `from` on that are `step` apart, below `end`.
pub open spec fn progression(from: int, step: int, end: int) -> Seq<int>
    decreases
            if from < end {
                end - from
            } else {
                0
            },
{
    if from >= end || step <= 0 {
        Seq::empty()
    } else {
        seq![from] + progression(from + step, step, end)
    }
}

/// An entry of a field: a number, the numbers from one to another, or some of those, a step
/// apart.
#[verifier::ext_equal]
pub enum Item {
    Number(int),
    Range(int, int),
    Stepped(int, int, int),
}

impl Item {
    /// The entry in a cron expression.
    pub open spec fn cron_text(self) -> Seq<char> {
        match self {
            Item::Number(n) => decimal(n),
            Item::Range(a, b) => decimal(a) + "-"@ + decimal(b),
            Item::Stepped(a, b, n) => decimal(a) + "-"@ + decimal(b) + "/"@ + decimal(n),
        }
    }

    /// The entry in a calendar expression, with at least `pad` digits.
    pub open spec fn text(self, pad: int) -> Seq<char> {
        match self {
            Item::Number(n) => padded(n, pad),
            Item::Range(a, b) => padded(a, pad) + ".."@ + padded(b, pad),
            Item::Stepped(a, b, n) => padded(a, pad) + ".."@ + padded(b, pad) + "/"@ + decimal(n),
        }
    }

    /// Whether the entry names numbers from `lo` to `hi` and no others.
    pub open spec fn within(self, lo: int, hi: int) -> bool {
        match self {
            Item::Number(n) => lo <= n <= hi,
            Item::Range(a, b) => lo <= a <= b <= hi,
            Item::Stepped(a, b, n) => lo <= a <= b <= hi && n >= 1,
        }
    }
}

pub open spec fn item_texts(items: Seq<Item>, pad: int) -> Seq<Seq<char>> {
    items.map_values(|item: Item| item.text(pad))
}

/// Whether a field has a hyphen and no comma, and so may be a range.
pub open spec fn looks_like_range(f: Seq<char>) -> bool {
    has_char(f, '-') && !has_char(f, ',') && pieces(f, '-').len() == 2
}

/// The bounds of a field `a-b` of numbers up to `max`.
pub open spec fn range_of(f: Seq<char>, max: int) -> Option<(int, int)> {
    let a = unsigned(pieces(f, '-')[0], max);
    let b = unsigned(pieces(f, '-')[1], max);
    if looks_like_range(f) && a is Some && b is Some {
        Some((a->0, b->0))
    } else {
        None
    }
}

/// The bounds and the step of a field `a-b/n` with a step that is not 0.
pub open spec fn stepped_of(f: Seq<char>) -> Option<(int, int, int)> {
    let max = u32::MAX as int;
    let sides = pieces(f, '/');
    let bounds = range_of(sides[0], max);
    let n = unsigned(sides[1], max);
    if sides.len() == 2 && bounds is Some && n is Some && n->0 > 0 {
        Some(((bounds->0).0, (bounds->0).1, n->0))
    } else {
        None
    }
}

/// What a part of a field of numbers from `first` on, below `end`, stands for: a step for the
/// numbers that it reaches from the first one, a star for all. There is nothing where the
/// part has none of the forms of an entry.
pub open spec fn items_of(p: Seq<char>, first: int, end: int) -> Option<Seq<Item>> {
    let max = u32::MAX as int;
    match (step_of(p), stepped_of(p), range_of(p, max), unsigned(p, max)) {
        (Some(n), _, _, _) => Some(
            progression(first, n, end).map_values(|v: int| Item::Number(v)),
        ),
        (None, Some((a, b, n)), _, _) => Some(seq![Item::Stepped(a, b, n)]),
        (None, None, Some((a, b)), _) => Some(seq![Item::Range(a, b)]),
        (None, None, None, Some(n)) => Some(seq![Item::Number(n)]),
        (None, None, None, None) => if p == "*"@ && first < end {
            Some(seq![Item::Range(first, end - 1)])
        } else {
            None
        },
    }
}

/// What the parts of a list stand for, one after the other.
pub open spec fn list_items(parts: Seq<Seq<char>>, first: int, end: int) -> Seq<Item>
    decreases parts.len(),
{
    if parts.len() == 0 {
        Seq::empty()
    } else {
        let rest = list_items(parts.drop_last(), first, end);
        match items_of(parts.last(), first, end) {
            Some(items) => rest + items,
            None => rest,
        }
    }
}

/// A field of minutes, hours, days or months, which count from `first` on and stay below
/// `end`, in a calendar expression: its entries with `pad` digits for each number. A lone star
/// stays, and so does a field that is neither an entry nor a list.
pub open spec fn field_text(f: Seq<char>, first: int, end: int, pad: int) -> Seq<char> {
    if f == "*"@ {
        f
    } else if has_char(f, ',') {
        joined(item_texts(list_items(pieces(f, ','), first, end), pad), ","@)
    } else {
        match items_of(f, first, end) {
            Some(items) => joined(item_texts(items, pad), ","@),
            None => f,
        }
    }
}

/// The name of a day of the week, counted from Sunday as 0, and a star for other numbers.
pub open spec fn day_name(n: int) -> Seq<char> {
    if n == 0 {
        "Sun"@
    } else if n == 1 {
        "Mon"@
    } else if n == 2 {
        "Tue"@
    } else if n == 3 {
        "Wed"@
    } else if n == 4 {
        "Thu"@
    } else if n == 5 {
        "Fri"@
    } else if n == 6 {
        "Sat"@
    } else {
        "*"@
    }
}

/// The names of days of the week.
pub open spec fn day_list(days: Seq<int>) -> Seq<Seq<char>> {
    days.map_values(|n: int| day_name(n))
}

/// The days of the week that a part of a field names: a number names one, a range of days is
/// written as a range, and a step, or a range with a step, becomes the days that it reaches.
/// There is nothing where the part has none of these forms.
pub open spec fn day_items(p: Seq<char>) -> Option<Seq<Seq<char>>> {
    let max = usize::MAX as int;
    match (unsigned(p, max), step_of(p), stepped_of(p), range_of(p, max)) {
        (Some(n), _, _, _) => Some(seq![day_name(n)]),
        (None, Some(n), _, _) => if n > 0 {
            Some(day_list(progression(0, n, 7)))
        } else {
            None
        },
        (None, None, Some((a, b, n)), _) => if a <= b < 7 {
            Some(day_list(progression(a, n, b + 1)))
        } else {
            None
        },
        (None, None, None, Some((a, b))) => if a < 7 && b < 7 {
            Some(seq![day_name(a) + ".."@ + day_name(b)])
        } else {
            None
        },
        (None, None, None, None) => None,
    }
}

/// The days of the week that the parts of a list name, one after the other; or, where one of
/// them names none, what is said of the first such part as a number.
pub open spec fn list_days(parts: Seq<Seq<char>>) -> Result<Seq<Seq<char>>, Seq<char>>
    decreases parts.len(),
{
    if parts.len() == 0 {
        Ok(Seq::empty())
    } else {
        match (list_days(parts.drop_last()), day_items(parts.last())) {
            (Err(e), _) => Err(e),
            (Ok(days), Some(more)) => Ok(days + more),
            (Ok(_), None) => Err(unsigned_fault(parts.last(), usize::MAX as int)),
        }
    }
}

/// What is said of the first side of a range that is no number.
pub open spec fn range_fault(f: Seq<char>) -> Seq<char> {
    let max = usize::MAX as int;
    let sides = pieces(f, '-');
    if unsigned(sides[0], max) is None {
        unsigned_fault(sides[0], max)
    } else {
        unsigned_fault(sides[1], max)
    }
}

/// The field of the day of the week in a calendar expression, or what is said of a side of a
/// range or a part of a list that cannot be read. A star leaves the field out, and a field
/// that is neither a list nor names days from 0 to 6 stays as it is.
pub open spec fn dow_text(f: Seq<char>) -> Result<Seq<char>, Seq<char>> {
    let max = usize::MAX as int;
    if f == "*"@ {
        Ok(Seq::empty())
    } else if has_char(f, ',') {
        match list_days(pieces(f, ',')) {
            Ok(days) => Ok(joined(days, ","@)),
            Err(e) => Err(e),
        }
    } else if unsigned(f, max) matches Some(n) && n >= 7 {
        Ok(f)
    } else if day_items(f) is Some {
        Ok(joined(day_items(f)->0, ","@))
    } else if looks_like_range(f) && range_of(f, max) is None {
        Err(range_fault(f))
    } else {
        Ok(f)
    }
}

/// The calendar expression of the five fields of a cron expression: the day of the week
/// where there is one, then `*-month-day hour:minute`.
pub open spec fn calendar_text(fields: Seq<Seq<char>>, dow: Seq<char>) -> Seq<char> {
    let date = "*-"@ + field_text(fields[3], 1, 13, 2) + "-"@ + field_text(fields[2], 1, 32, 2);
    let time = field_text(fields[1], 0, 24, 2) + ":"@ + field_text(fields[0], 0, 60, 2);
    if dow.len() == 0 {
        date + " "@ + time
    } else {
        dow + " "@ + date + " "@ + time
    }
}

/// What a cron expression is in systemd's calendar.
pub open spec fn calendar_of(expr: Seq<char>) -> Result<Seq<char>, CronFault> {
    let fields = words(expr);
    if fields.len() != 5 {
        Err(CronFault::FieldCount(fields.len() as usize))
    } else {
        match dow_text(fields[4]) {
            Ok(dow) => Ok(calendar_text(fields, dow)),
            Err(e) => Err(CronFault::DayOfWeek(e)),
        }
    }
}

pub open spec fn calendar_result(r: Result<String, CronError>) -> Result<Seq<char>, CronFault> {
    match r {
        Ok(t) => Ok(t@),
        Err(e) => Err(e@),
    }
}

/// Whether a cron expression that would otherwise be converted asks for every zeroth minute,
/// hour, day or month.
pub open spec fn zero_step(expr: Seq<char>) -> bool {
    let fields = words(expr);
    &&& fields.len() == 5
    &&& dow_text(fields[4]) is Ok
    &&& exists|i: int| 0 <= i < 4 && #[trigger] step_of(fields[i]) == Some(0int)
}

fn step(field: &str) -> (r: Option<u32>)
    ensures
        r is Some <==> step_of(field@) is Some,
        r matches Some(n) ==> step_of(field@) == Some(n as int),
{
    match strip_prefix(field, "*/") {
        Some(rest) => match parse_unsigned(rest, u32::MAX as u64) {
            Some(n) => Some(n as u32),
            None => None,
        },
        None => None,
    }
}

/// The two sides of a field that may be a range.
fn range_sides<'a>(field: &'a str) -> (r: Option<(&'a str, &'a str)>)
    ensures
        r is Some <==> looks_like_range(field@),
        r matches Some((a, b)) ==> a@ == pieces(field@, '-')[0] && b@ == pieces(field@, '-')[1],
{
    if contains_char(field, '-') && !contains_char(field, ',') {
        let parts = split_on(field, '-');
        assert(views(parts@).len() == parts@.len());
        if parts.len() == 2 {
            assert(views(parts@)[0] == parts@[0]@);
            assert(views(parts@)[1] == parts@[1]@);
            return Some((parts[0], parts[1]));
        }
    }
    None
}

/// `a..b` in a calendar expression.
fn range_text(a: u64, b: u64, pad: usize) -> (r: String)
    ensures
        r@ == Item::Range(a as int, b as int).text(pad as int),
{
    let mut r = padded_text(a, pad);
    r.append("..");
    r.append(padded_text(b, pad).as_str());
    r
}

/// The bounds of a range.
fn range(field: &str) -> (r: Option<(u64, u64)>)
    ensures
        r is Some <==> range_of(field@, u32::MAX as int) is Some,
        r matches Some((a, b)) ==> range_of(field@, u32::MAX as int) == Some((a as int, b as int)),
{
    match range_sides(field) {
        Some((left, right)) => match (
            parse_unsigned(left, u32::MAX as u64),
            parse_unsigned(right, u32::MAX as u64),
        ) {
            (Some(a), Some(b)) => Some((a, b)),
            _ => None,
        },
        None => None,
    }
}

/// The bounds and the step of a range with a step.
fn stepped_range(field: &str) -> (r: Option<(u64, u64, u64)>)
    ensures
        r is Some <==> stepped_of(field@) is Some,
        r matches Some((a, b, n)) ==> stepped_of(field@) == Some((a as int, b as int, n as int)),
{
    let sides = split_on(field, '/');
    assert(views(sides@).len() == sides@.len());
    if sides.len() != 2 {
        return None;
    }
    assert(views(sides@)[0] == sides@[0]@);
    assert(views(sides@)[1] == sides@[1]@);
    match (range(sides[0]), parse_unsigned(sides[1], u32::MAX as u64)) {
        (Some((a, b)), Some(n)) => if n > 0 {
            Some((a, b, n))
        } else {
            None
        },
        _ => None,
    }
}

/// The numbers that a step reaches.
fn step_list(first: u32, step: u32, end: u32, pad: usize) -> (r: Vec<String>)
    ensures
        string_views(r@) == item_texts(
            progression(first as int, step as int, end as int).map_values(
                |v: int| Item::Number(v),
            ),
            pad as int,
        ),
{
    let ghost number = |v: int| Item::Number(v);
    let ghost all = item_texts(
        progression(first as int, step as int, end as int).map_values(number),
        pad as int,
    );
    let mut r: Vec<String> = Vec::new();
    if step == 0 {
        assert(string_views(r@) == all);
        return r;
    }
    let mut v: u64 = first as u64;
    assert(string_views(r@) + all == all);
    while v < end as u64
        invariant
            step > 0,
            v <= first + end + step,
            number == (|v: int| Item::Number(v)),
            string_views(r@) + item_texts(
                progression(v as int, step as int, end as int).map_values(number),
                pad as int,
            ) == all,
        decreases
                if v < end {
                    end - v
                } else {
                    0
                },
    {
        let t = padded_text(v, pad);
        let ghost before = string_views(r@);
        let ghost rest = item_texts(
            progression(v + step, step as int, end as int).map_values(number),
            pad as int,
        );
        r.push(t);
        proof {
            assert(string_views(r@) == before.push(t@));
            assert(item_texts(
                progression(v as int, step as int, end as int).map_values(number),
                pad as int,
            ) == seq![t@] + rest);
            assert(before + (seq![t@] + rest) == before.push(t@) + rest);
        }
        v = v + step as u64;
    }
    proof {
        assert(progression(v as int, step as int, end as int) == Seq::<int>::empty());
        assert(string_views(r@) + item_texts(
            Seq::<int>::empty().map_values(number),
            pad as int,
        ) == string_views(r@));
    }
    r
}

/// What a part of a field stands for, entry by entry.
fn part_list(part: &str, first: u32, end: u32, pad: usize) -> (r: Option<Vec<String>>)
    ensures
        r is Some <==> items_of(part@, first as int, end as int) is Some,
        r matches Some(list) ==> string_views(list@) == item_texts(
            items_of(part@, first as int, end as int)->0,
            pad as int,
        ),
{
    if let Some(n) = step(part) {
        return Some(step_list(first, n, end, pad));
    }
    let ghost item: Item;
    let text: String;
    if let Some((a, b, n)) = stepped_range(part) {
        let mut t = range_text(a, b, pad);
        t.append("/");
        t.append(decimal_text(n).as_str());
        text = t;
        proof {
            item = Item::Stepped(a as int, b as int, n as int);
        }
    } else if let Some((a, b)) = range(part) {
        text = range_text(a, b, pad);
        proof {
            item = Item::Range(a as int, b as int);
        }
    } else if let Some(n) = parse_unsigned(part, u32::MAX as u64) {
        text = padded_text(n, pad);
        proof {
            item = Item::Number(n as int);
        }
    } else if same(part, "*") && first < end {
        text = range_text(first as u64, (end - 1) as u64, pad);
        proof {
            item = Item::Range(first as int, end - 1);
        }
    } else {
        return None;
    }
    let mut list: Vec<String> = Vec::new();
    list.push(text);
    proof {
        assert(items_of(part@, first as int, end as int) == Some(seq![item]));
        assert(string_views(list@) == item_texts(seq![item], pad as int));
    }
    Some(list)
}

/// What the parts of a list stand for, entry by entry.
fn whole_list(field: &str, first: u32, end: u32, pad: usize) -> (r: Vec<String>)
    ensures
        string_views(r@) == item_texts(
            list_items(pieces(field@, ','), first as int, end as int),
            pad as int,
        ),
{
    let parts = split_on(field, ',');
    let ghost ps = pieces(field@, ',');
    let mut r: Vec<String> = Vec::new();
    let mut i: usize = 0;
    assert(views(parts@).len() == parts@.len());
    assert(string_views(r@) == item_texts(
        list_items(ps.take(0), first as int, end as int),
        pad as int,
    ));
    while i < parts.len()
        invariant
            i <= parts@.len() == ps.len(),
            ps == views(parts@),
            string_views(r@) == item_texts(
                list_items(ps.take(i as int), first as int, end as int),
                pad as int,
            ),
        decreases parts.len() - i,
    {
        assert(ps.take(i + 1).drop_last() == ps.take(i as int));
        assert(ps.take(i + 1).last() == parts@[i as int]@);
        if let Some(list) = part_list(parts[i], first, end, pad) {
            let mut list = list;
            let ghost before = r@;
            let ghost more = list@;
            let ghost so_far = list_items(ps.take(i as int), first as int, end as int);
            let ghost items = items_of(parts@[i as int]@, first as int, end as int)->0;
            r.append(&mut list);
            proof {
                assert(string_views(r@) == string_views(before) + string_views(more));
                assert(item_texts(so_far + items, pad as int) == item_texts(so_far, pad as int)
                    + item_texts(items, pad as int));
            }
        }
        i += 1;
    }
    assert(ps.take(ps.len() as int) == ps);
    r
}

/// A field of numbers from `first` on, below `end`, in a calendar expression, with `pad`
/// digits for each.
fn convert_from(field: &str, first: u32, end: u32, pad: usize) -> (r: String)
    ensures
        r@ == field_text(field@, first as int, end as int, pad as int),
{
    if same(field, "*") {
        return "*".to_owned();
    }
    if contains_char(field, ',') {
        return join(&whole_list(field, first, end, pad), ",");
    }
    match part_list(field, first, end, pad) {
        Some(list) => join(&list, ","),
        None => field.to_owned(),
    }
}

/// A field of numbers from 0 on, below `max`, in a calendar expression, with `pad` digits for
/// each.
pub fn convert_field(field: &str, max: u32, pad: usize) -> (r: String)
    requires
        step_of(field@) != Some(0int),
    ensures
        r@ == field_text(field@, 0, max as int, pad as int),
{
    convert_from(field, 0, max, pad)
}

pub fn convert_minute(field: &str) -> (r: String)
    requires
        step_of(field@) != Some(0int),
    ensures
        r@ == field_text(field@, 0, 60, 2),
{
    convert_field(field, 60, 2)
}

pub fn convert_hour(field: &str) -> (r: String)
    requires
        step_of(field@) != Some(0int),
    ensures
        r@ == field_text(field@, 0, 24, 2),
{
    convert_field(field, 24, 2)
}

/// The days of a month count from 1 to 31.
pub fn convert_day(field: &str) -> (r: String)
    requires
        step_of(field@) != Some(0int),
    ensures
        r@ == field_text(field@, 1, 32, 2),
{
    convert_from(field, 1, 32, 2)
}

/// The months of a year count from 1 to 12.
pub fn convert_month(field: &str) -> (r: String)
    requires
        step_of(field@) != Some(0int),
    ensures
        r@ == field_text(field@, 1, 13, 2),
{
    convert_from(field, 1, 13, 2)
}

/// The name of a day of the week, counted from Sunday as 0, and a star for other numbers.
fn dow_name(n: u64) -> (r: &'static str)
    ensures
        r@ == day_name(n as int),
{
    match n {
        0 => "Sun",
        1 => "Mon",
        2 => "Tue",
        3 => "Wed",
        4 => "Thu",
        5 => "Fri",
        6 => "Sat",
        _ => "*",
    }
}

/// The range of days of the week from one to another.
fn dow_range(start: u64, end: u64) -> (r: String)
    ensures
        r@ == day_name(start as int) + ".."@ + day_name(end as int),
{
    let mut r = dow_name(start).to_owned();
    r.append("..");
    r.append(dow_name(end));
    r
}

/// The days of the week from `first` on that are `step` apart, below `end`.
fn dow_steps(first: u64, step: u64, end: u64) -> (r: Vec<String>)
    requires
        0 < step <= u32::MAX,
        end <= 7,
    ensures
        string_views(r@) == day_list(progression(first as int, step as int, end as int)),
{
    let mut r: Vec<String> = Vec::new();
    let ghost all = day_list(progression(first as int, step as int, end as int));
    let mut v: u64 = first;
    assert(string_views(r@) + all == all);
    while v < end
        invariant
            0 < step <= u32::MAX,
            end <= 7,
            string_views(r@) + day_list(progression(v as int, step as int, end as int)) == all,
        decreases
                if v < end {
                    end - v
                } else {
                    0
                },
    {
        let t = dow_name(v).to_owned();
        let ghost before = string_views(r@);
        let ghost rest = day_list(progression(v + step, step as int, end as int));
        r.push(t);
        proof {
            assert(string_views(r@) == before.push(t@));
            assert(day_list(progression(v as int, step as int, end as int)) == seq![t@] + rest);
            assert(before + (seq![t@] + rest) == before.push(t@) + rest);
        }
        v = v + step;
    }
    proof {
        assert(progression(v as int, step as int, end as int) == Seq::<int>::empty());
        assert(string_views(r@) + day_list(Seq::<int>::empty()) == string_views(r@));
    }
    r
}

/// The days of the week that a part of a field names.
fn dow_items(part: &str) -> (r: Option<Vec<String>>)
    ensures
        r is Some <==> day_items(part@) is Some,
        r matches Some(days) ==> day_items(part@) == Some(string_views(days@)),
{
    let text: String;
    if let Some(n) = parse_unsigned(part, usize::MAX as u64) {
        text = dow_name(n).to_owned();
    } else if let Some(n) = step(part) {
        if n == 0 {
            return None;
        }
        return Some(dow_steps(0, n as u64, 7));
    } else if let Some((a, b, n)) = stepped_range(part) {
        if a > b || b >= 7 {
            return None;
        }
        return Some(dow_steps(a, n, b + 1));
    } else {
        match number_range(part) {
            Ok(Some((start, end))) => {
                if start >= 7 || end >= 7 {
                    return None;
                }
                text = dow_range(start, end);
            },
            _ => {
                return None;
            },
        }
    }
    let mut r: Vec<String> = Vec::new();
    r.push(text);
    assert(string_views(r@) == seq![text@]);
    Some(r)
}

/// The bounds of a field that may be a range; or what is said of the first that is no number.
fn number_range(field: &str) -> (r: Result<Option<(u64, u64)>, String>)
    ensures
        r is Err <==> looks_like_range(field@) && range_of(field@, usize::MAX as int) is None,
        r matches Err(e) ==> e@ == range_fault(field@),
        r matches Ok(bounds) ==> (bounds is Some <==> range_of(field@, usize::MAX as int) is Some),
        r matches Ok(Some((a, b))) ==> range_of(field@, usize::MAX as int) == Some(
            (a as int, b as int),
        ),
{
    match range_sides(field) {
        Some((left, right)) => match parse_unsigned(left, usize::MAX as u64) {
            Some(a) => match parse_unsigned(right, usize::MAX as u64) {
                Some(b) => Ok(Some((a, b))),
                None => Err(unsigned_error(right)),
            },
            None => Err(unsigned_error(left)),
        },
        None => Ok(None),
    }
}

/// The days of a list.
fn dow_list(field: &str) -> (r: Result<Vec<String>, String>)
    ensures
        (match r {
            Ok(days) => Ok(string_views(days@)),
            Err(e) => Err(e@),
        }) == list_days(pieces(field@, ',')),
{
    let parts = split_on(field, ',');
    let ghost ps = pieces(field@, ',');
    let mut r: Vec<String> = Vec::new();
    let mut i: usize = 0;
    assert(views(parts@).len() == parts@.len());
    assert(string_views(r@) == Seq::<Seq<char>>::empty());
    while i < parts.len()
        invariant
            i <= parts@.len() == ps.len(),
            ps == views(parts@),
            ps == pieces(field@, ','),
            list_days(ps.take(i as int)) == Ok::<Seq<Seq<char>>, Seq<char>>(string_views(r@)),
        decreases parts.len() - i,
    {
        assert(ps.take(i + 1).drop_last() == ps.take(i as int));
        assert(ps.take(i + 1).last() == parts@[i as int]@);
        match dow_items(parts[i]) {
            Some(days) => {
                let mut days = days;
                let ghost before = r@;
                let ghost more = days@;
                r.append(&mut days);
                assert(string_views(r@) == string_views(before) + string_views(more));
            },
            None => {
                let e = unsigned_error(parts[i]);
                proof {
                    lemma_list_fault(ps, i + 1);
                }
                return Err(e);
            },
        }
        i += 1;
    }
    assert(ps.take(ps.len() as int) == ps);
    Ok(r)
}

/// The fault of the front of a list is that of the list.
proof fn lemma_list_fault(parts: Seq<Seq<char>>, k: int)
    requires
        0 <= k <= parts.len(),
        list_days(parts.take(k)) is Err,
    ensures
        list_days(parts) == list_days(parts.take(k)),
    decreases parts.len() - k,
{
    if k == parts.len() {
        assert(parts.take(k) == parts);
    } else {
        assert(parts.take(k + 1).drop_last() == parts.take(k));
        lemma_list_fault(parts, k + 1);
    }
}

/// The field of the day of the week in a calendar expression.
pub fn convert_dow(field: &str) -> (r: Result<String, CronError>)
    ensures
        r is Ok <==> dow_text(field@) is Ok,
        r matches Ok(t) ==> dow_text(field@) == Ok::<Seq<char>, Seq<char>>(t@),
        r matches Err(e) ==> e matches CronError::DayOfWeek(t) && dow_text(field@) == Err::<
            Seq<char>,
            Seq<char>,
        >(t@),
{
    if same(field, "*") {
        return Ok(String::new());
    }
    if contains_char(field, ',') {
        return match dow_list(field) {
            Ok(days) => Ok(join(&days, ",")),
            Err(e) => Err(CronError::DayOfWeek(e)),
        };
    }
    if let Some(n) = parse_unsigned(field, usize::MAX as u64) {
        if n >= 7 {
            return Ok(field.to_owned());
        }
    }
    if let Some(days) = dow_items(field) {
        return Ok(join(&days, ","));
    }
    match number_range(field) {
        Err(e) => Err(CronError::DayOfWeek(e)),
        Ok(_) => Ok(field.to_owned()),
    }
}

/// Whether a cron expression asks for every zeroth minute, hour, day or month, and so has no
/// calendar expression although its fields are in order.
pub fn has_zero_step(cron_expr: &str) -> (r: bool)
    ensures
        r == zero_step(cron_expr@),
{
    let parts = split_whitespace(cron_expr);
    let ghost fields = words(cron_expr@);
    assert(views(parts@).len() == parts@.len());
    if parts.len() != 5 {
        return false;
    }
    assert(forall|i: int| 0 <= i < 5 ==> fields[i] == parts@[i]@);
    if convert_dow(parts[4]).is_err() {
        return false;
    }
    let mut i: usize = 0;
    while i < 4
        invariant
            i <= 4,
            parts@.len() == 5,
            fields == words(cron_expr@),
            fields.len() == 5,
            dow_text(fields[4]) is Ok,
            forall|i: int| 0 <= i < 5 ==> fields[i] == parts@[i]@,
            forall|j: int| 0 <= j < i ==> #[trigger] step_of(fields[j]) != Some(0int),
        decreases 4 - i,
    {
        if let Some(n) = step(parts[i]) {
            if n == 0 {
                assert(step_of(fields[i as int]) == Some(0int));
                return true;
            }
        }
        i += 1;
    }
    false
}

/// The calendar expression of a cron expression of five fields: minute, hour, day, month and
/// day of the week.
pub fn cron_to_oncalendar(cron_expr: &str) -> (r: Result<String, CronError>)
    requires
        !zero_step(cron_expr@),
    ensures
        calendar_result(r) == calendar_of(cron_expr@),
{
    let parts = split_whitespace(cron_expr);
    let ghost fields = words(cron_expr@);
    assert(views(parts@).len() == parts@.len());
    if parts.len() != 5 {
        return Err(CronError::FieldCount(parts.len()));
    }
    assert(forall|i: int| 0 <= i < 5 ==> fields[i] == parts@[i]@);
    let dow = match convert_dow(parts[4]) {
        Ok(d) => d,
        Err(e) => {
            return Err(e);
        },
    };
    proof {
        assert(step_of(fields[0]) != Some(0int));
        assert(step_of(fields[1]) != Some(0int));
        assert(step_of(fields[2]) != Some(0int));
        assert(step_of(fields[3]) != Some(0int));
    }
    let mut date = "*-".to_owned();
    date.append(convert_month(parts[3]).as_str());
    date.append("-");
    date.append(convert_day(parts[2]).as_str());
    let mut time = convert_hour(parts[1]);
    time.append(":");
    time.append(convert_minute(parts[0]).as_str());
    let mut r = String::new();
    if !dow.as_str().is_empty() {
        r = dow;
        r.append(" ");
        r.append(date.as_str());
    } else {
        r = date;
    }
    r.append(" ");
    r.append(time.as_str());
    Ok(r)
}

impl CronFault {
    /// What a user is told.
    pub open spec fn message(self) -> Seq<char> {
        match self {
            CronFault::FieldCount(n) => "Invalid cron expression: expected 5 fields, got "@
                + decimal(n as int),
            CronFault::DayOfWeek(s) => s,
        }
    }
}

impl CronError {
    /// What a user is told.
    pub fn message(&self) -> (r: String)
        ensures
            r@ == self@.message(),
    {
        match self {
            CronError::FieldCount(n) => {
                let mut r = "Invalid cron expression: expected 5 fields, got ".to_owned();
                r.append(decimal_text(*n as u64).as_str());
                r
            },
            CronError::DayOfWeek(s) => s.clone(),
        }
    }
}

/// Five words with a space between each two.
#[verifier::opaque]
pub open spec fn five(
    minute: Seq<char>,
    hour: Seq<char>,
    day: Seq<char>,
    month: Seq<char>,
    dow: Seq<char>,
) -> Seq<char> {
    minute + " "@ + (hour + " "@ + (day + " "@ + (month + " "@ + dow)))
}

/// Each field of an expression stands for itself: the five are taken apart at the spaces.
pub proof fn law_fields_are_taken_apart(
    minute: Seq<char>,
    hour: Seq<char>,
    day: Seq<char>,
    month: Seq<char>,
    dow: Seq<char>,
)
    requires
        is_word(minute),
        is_word(hour),
        is_word(day),
        is_word(month),
        is_word(dow),
    ensures
        words(five(minute, hour, day, month, dow)) == seq![minute, hour, day, month, dow],
        dow_text(dow) matches Ok(days) ==> calendar_of(five(minute, hour, day, month, dow)) == Ok::<
            Seq<char>,
            CronFault,
        >(calendar_text(seq![minute, hour, day, month, dow], days)),
        dow_text(dow) matches Err(e) ==> calendar_of(five(minute, hour, day, month, dow)) == Err::<
            Seq<char>,
            CronFault,
        >(CronFault::DayOfWeek(e)),
{
    lemma_five_words(minute, hour, day, month, dow);
}

proof fn lemma_five_words(
    minute: Seq<char>,
    hour: Seq<char>,
    day: Seq<char>,
    month: Seq<char>,
    dow: Seq<char>,
)
    requires
        is_word(minute),
        is_word(hour),
        is_word(day),
        is_word(month),
        is_word(dow),
    ensures
        words(five(minute, hour, day, month, dow)) == seq![minute, hour, day, month, dow],
{
    reveal(five);
    lemma_first_word(month, dow);
    lemma_first_word(day, month + " "@ + dow);
    lemma_first_word(hour, day + " "@ + (month + " "@ + dow));
    lemma_first_word(minute, hour + " "@ + (day + " "@ + (month + " "@ + dow)));
    lemma_one_word(dow);
    assert(words(five(minute, hour, day, month, dow)) =~= seq![minute, hour, day, month, dow]);
}

/// A number as a field of its own keeps its value, with `pad` digits.
pub proof fn law_number_is_padded(n: int, first: int, end: int, pad: int)
    requires
        0 <= n <= u32::MAX,
    ensures
        field_text(decimal(n), first, end, pad) == padded(n, pad),
        step_of(decimal(n)) is None,
        is_word(decimal(n)),
{
    let d = decimal(n);
    let item = Item::Number(n);
    lemma_item_reads_back(item, first, end);
    lemma_decimal_reads_back(n);
    assert(item_texts(seq![item], pad) == seq![padded(n, pad)]);
    assert forall|i: int| 0 <= i < d.len() implies !is_white(#[trigger] d[i]) by {
        assert(is_digit(d[i]));
    }
}

/// A number has neither hyphens, slashes nor commas, and is read back by itself.
proof fn lemma_plain_number(n: int)
    requires
        0 <= n <= u32::MAX,
    ensures
        !has_char(decimal(n), '-'),
        !has_char(decimal(n), '/'),
        !has_char(decimal(n), ','),
        is_digit(decimal(n)[0]),
        decimal(n).len() > 0,
        unsigned(decimal(n), u32::MAX as int) == Some(n),
        unsigned(decimal(n), usize::MAX as int) == Some(n),
{
    let d = decimal(n);
    lemma_decimal_reads_back(n);
    assert(is_digit(d[0]));
    assert forall|i: int| 0 <= i < d.len() implies (#[trigger] d[i]) != '-' && d[i] != '/' && d[i]
        != ',' by {
        assert(is_digit(d[i]));
    }
}

proof fn lemma_neither_has_char(a: Seq<char>, b: Seq<char>, c: char)
    requires
        !has_char(a, c),
        !has_char(b, c),
    ensures
        !has_char(a + b, c),
{
    assert forall|i: int| 0 <= i < (a + b).len() implies (a + b)[i] != c by {
        if i < a.len() {
            assert(a[i] != c);
        } else {
            assert(b[i - a.len()] != c);
        }
    }
}

/// A text without a separator is one piece.
proof fn lemma_one_piece(s: Seq<char>, c: char)
    requires
        !has_char(s, c),
    ensures
        pieces(s, c) == seq![s],
{
    assert(joined(seq![s], seq![c]) == s);
    lemma_pieces_of_joined(seq![s], c);
}

/// Two texts without a separator, with one between them, are two pieces.
proof fn lemma_two_pieces(a: Seq<char>, b: Seq<char>, c: char)
    requires
        !has_char(a, c),
        !has_char(b, c),
    ensures
        pieces(a + seq![c] + b, c) == seq![a, b],
        has_char(a + seq![c] + b, c),
{
    let parts = seq![a, b];
    assert(parts.drop_last() == seq![a]);
    assert(joined(seq![a], seq![c]) == a);
    assert(joined(parts, seq![c]) == a + seq![c] + b);
    lemma_pieces_of_joined(parts, c);
    lemma_joined_has_separator(parts, c);
}

/// A range of numbers is read back.
proof fn lemma_range_reads_back(a: int, b: int)
    requires
        0 <= a <= u32::MAX,
        0 <= b <= u32::MAX,
    ensures
        range_of(decimal(a) + "-"@ + decimal(b), u32::MAX as int) == Some((a, b)),
        range_of(decimal(a) + "-"@ + decimal(b), usize::MAX as int) == Some((a, b)),
        !has_char(decimal(a) + "-"@ + decimal(b), '/'),
        !has_char(decimal(a) + "-"@ + decimal(b), ','),
{
    reveal_strlit("-");
    lemma_plain_number(a);
    lemma_plain_number(b);
    assert("-"@ == seq!['-']);
    lemma_two_pieces(decimal(a), decimal(b), '-');
    lemma_neither_has_char(decimal(a), "-"@, '/');
    lemma_neither_has_char(decimal(a) + "-"@, decimal(b), '/');
    lemma_neither_has_char(decimal(a), "-"@, ',');
    lemma_neither_has_char(decimal(a) + "-"@, decimal(b), ',');
}

/// The numbers of an entry can be held.
pub open spec fn is_writable(item: Item) -> bool {
    let max = u32::MAX as int;
    match item {
        Item::Number(n) => 0 <= n <= max,
        Item::Range(a, b) => 0 <= a <= max && 0 <= b <= max,
        Item::Stepped(a, b, n) => 0 <= a <= max && 0 <= b <= max && 0 < n <= max,
    }
}

/// An entry of a cron expression is read back.
proof fn lemma_item_reads_back(item: Item, first: int, end: int)
    requires
        is_writable(item),
    ensures
        items_of(item.cron_text(), first, end) == Some(seq![item]),
        step_of(item.cron_text()) is None,
        !has_char(item.cron_text(), ','),
        item.cron_text().len() > 0,
        is_digit(item.cron_text()[0]),
        item.cron_text() != "*"@,
{
    reveal_strlit("-");
    reveal_strlit("/");
    reveal_strlit("*");
    reveal_strlit("*/");
    let f = item.cron_text();
    match item {
        Item::Number(n) => {
            lemma_plain_number(n);
            lemma_one_piece(f, '/');
        },
        Item::Range(a, b) => {
            lemma_plain_number(a);
            lemma_range_reads_back(a, b);
            lemma_one_piece(f, '/');
        },
        Item::Stepped(a, b, n) => {
            let bounds = decimal(a) + "-"@ + decimal(b);
            lemma_plain_number(a);
            lemma_plain_number(n);
            lemma_range_reads_back(a, b);
            assert("/"@ == seq!['/']);
            lemma_two_pieces(bounds, decimal(n), '/');
            lemma_neither_has_char(bounds, "/"@, ',');
            lemma_neither_has_char(bounds + "/"@, decimal(n), ',');
        },
    }
    assert(is_digit(f[0]));
    assert(starts_with(f, "*/"@) ==> f.take(2)[0] == f[0]);
}

/// A step stands for the numbers that it reaches from the first one on: minutes and hours
/// count from 0, days and months from 1.
pub proof fn law_step_counts_from_the_first(n: int, first: int, end: int, pad: int)
    requires
        0 < n <= u32::MAX,
    ensures
        field_text("*/"@ + decimal(n), first, end, pad) == joined(
            progression(first, n, end).map_values(|v: int| padded(v, pad)),
            ","@,
        ),
{
    reveal_strlit("*/");
    reveal_strlit("*");
    lemma_plain_number(n);
    let f = "*/"@ + decimal(n);
    assert(f.take(2) == "*/"@);
    assert(f.skip(2) == decimal(n));
    lemma_neither_has_char("*/"@, decimal(n), ',');
    assert(item_texts(progression(first, n, end).map_values(|v: int| Item::Number(v)), pad)
        == progression(first, n, end).map_values(|v: int| padded(v, pad)));
}

/// A range of numbers stays a range, of the same numbers.
pub proof fn law_range_keeps_its_bounds(a: int, b: int, first: int, end: int, pad: int)
    requires
        0 <= a <= u32::MAX,
        0 <= b <= u32::MAX,
    ensures
        field_text(decimal(a) + "-"@ + decimal(b), first, end, pad) == padded(a, pad) + ".."@
            + padded(b, pad),
        a < 7 && b < 7 ==> dow_text(decimal(a) + "-"@ + decimal(b)) == Ok::<Seq<char>, Seq<char>>(
            day_name(a) + ".."@ + day_name(b),
        ),
{
    let item = Item::Range(a, b);
    lemma_item_reads_back(item, first, end);
    lemma_range_reads_back(a, b);
    assert(item_texts(seq![item], pad) == seq![item.text(pad)]);
    let f = decimal(a) + "-"@ + decimal(b);
    if unsigned(f, usize::MAX as int) is Some {
        lemma_number_has_no(f, usize::MAX as int, '-');
    }
    if a < 7 && b < 7 {
        lemma_one_piece(f, '/');
        assert(stepped_of(f) is None);
        assert(day_items(f) == Some(seq![day_name(a) + ".."@ + day_name(b)]));
    }
}

/// A list of numbers, ranges and ranges with a step keeps every one of them, in order.
pub proof fn law_list_keeps_its_items(items: Seq<Item>, first: int, end: int, pad: int)
    requires
        items.len() > 0,
        forall|i: int| 0 <= i < items.len() ==> is_writable(#[trigger] items[i]),
    ensures
        field_text(joined(items.map_values(|item: Item| item.cron_text()), ","@), first, end, pad)
            == joined(item_texts(items, pad), ","@),
{
    reveal_strlit(",");
    reveal_strlit("*");
    let parts = items.map_values(|item: Item| item.cron_text());
    let f = joined(parts, ","@);
    assert(","@ == seq![',']);
    assert forall|i: int| 0 <= i < parts.len() implies !has_char(#[trigger] parts[i], ',') by {
        assert(is_writable(items[i]));
        lemma_item_reads_back(items[i], first, end);
    }
    assert(is_writable(items[0]));
    lemma_item_reads_back(items[0], first, end);
    assert(parts[0] == items[0].cron_text());
    lemma_joined_starts(parts, ","@);
    assert(f != "*"@);
    if items.len() == 1 {
        assert(items == seq![items[0]]);
    } else {
        lemma_pieces_of_joined(parts, ',');
        lemma_joined_has_separator(parts, ',');
        lemma_list_items_of(items, first, end);
    }
}

proof fn lemma_joined_starts(parts: Seq<Seq<char>>, sep: Seq<char>)
    requires
        parts.len() > 0,
        parts[0].len() > 0,
    ensures
        joined(parts, sep).len() > 0,
        joined(parts, sep)[0] == parts[0][0],
    decreases parts.len(),
{
    if parts.len() > 1 {
        lemma_joined_starts(parts.drop_last(), sep);
    }
}

proof fn lemma_list_items_of(items: Seq<Item>, first: int, end: int)
    requires
        forall|i: int| 0 <= i < items.len() ==> is_writable(#[trigger] items[i]),
    ensures
        list_items(items.map_values(|item: Item| item.cron_text()), first, end) == items,
    decreases items.len(),
{
    let parts = items.map_values(|item: Item| item.cron_text());
    if items.len() > 0 {
        let front = items.drop_last();
        assert forall|i: int| 0 <= i < front.len() implies is_writable(#[trigger] front[i]) by {
            assert(is_writable(items[i]));
        }
        lemma_list_items_of(front, first, end);
        assert(parts.drop_last() == front.map_values(|item: Item| item.cron_text()));
        assert(is_writable(items[items.len() - 1]));
        lemma_item_reads_back(items.last(), first, end);
        assert(parts.last() == items.last().cron_text());
        assert(front + seq![items.last()] == items);
    }
}

/// No part of a list that has the form of an entry is lost, whatever stands beside it: all
/// that it stands for is written, one after the other.
pub proof fn law_no_entry_is_lost(parts: Seq<Seq<char>>, i: int, first: int, end: int)
    requires
        0 <= i < parts.len(),
        items_of(parts[i], first, end) is Some,
    ensures
        exists|k: int|
            0 <= k && k + (items_of(parts[i], first, end)->0).len() <= list_items(
                parts,
                first,
                end,
            ).len() && #[trigger] list_items(parts, first, end).subrange(
                k,
                k + (items_of(parts[i], first, end)->0).len(),
            ) == items_of(parts[i], first, end)->0,
    decreases parts.len(),
{
    let items = items_of(parts[i], first, end)->0;
    let all = list_items(parts, first, end);
    let front = parts.drop_last();
    let rest = list_items(front, first, end);
    if i == parts.len() - 1 {
        let k = rest.len() as int;
        assert(all.subrange(k, k + items.len()) == items);
    } else {
        law_no_entry_is_lost(front, i, first, end);
        assert(front[i] == parts[i]);
        let k = choose|k: int|
            0 <= k && k + items.len() <= rest.len() && #[trigger] rest.subrange(
                k,
                k + items.len(),
            ) == items;
        assert(all.subrange(k, k + items.len()) == rest.subrange(k, k + items.len()));
    }
}

/// A day of the week by its number has its name, from Sunday as 0 to Saturday as 6.
pub proof fn law_day_numbers_have_names(n: int)
    requires
        0 <= n < 7,
    ensures
        dow_text(decimal(n)) == Ok::<Seq<char>, Seq<char>>(day_name(n)),
{
    reveal_strlit("*");
    lemma_plain_number(n);
}

/// A star stays what it is, and leaves the days of the week out.
proof fn lemma_star()
    ensures
        is_word("*"@),
        step_of("*"@) is None,
        dow_text("*"@) == Ok::<Seq<char>, Seq<char>>(Seq::empty()),
        forall|first: int, end: int| #[trigger] field_text("*"@, first, end, 2) == "*"@,
{
    reveal_strlit("*");
    reveal_strlit("*/");
}

/// An expression of a minute and an hour with stars for the rest fires once a day, at that
/// time.
pub proof fn law_daily(minute: int, hour: int)
    requires
        0 <= minute <= u32::MAX,
        0 <= hour <= u32::MAX,
    ensures
        calendar_of(five(decimal(minute), decimal(hour), "*"@, "*"@, "*"@)) == Ok::<
            Seq<char>,
            CronFault,
        >("*-"@ + "*"@ + "-"@ + "*"@ + " "@ + (padded(hour, 2) + ":"@ + padded(minute, 2))),
        !zero_step(five(decimal(minute), decimal(hour), "*"@, "*"@, "*"@)),
{
    let star = "*"@;
    let m = decimal(minute);
    let h = decimal(hour);
    let expr = five(m, h, star, star, star);
    let fields = seq![m, h, star, star, star];
    lemma_star();
    law_number_is_padded(minute, 0, 60, 2);
    law_number_is_padded(hour, 0, 24, 2);
    assert(words(expr) == fields && calendar_of(expr) == Ok::<Seq<char>, CronFault>(
        calendar_text(fields, Seq::empty()),
    )) by {
        law_fields_are_taken_apart(m, h, star, star, star);
    }
    assert(!zero_step(expr)) by {
        assert forall|i: int| 0 <= i < 4 implies #[trigger] step_of(fields[i]) is None by {
            assert(fields[i] == m || fields[i] == h || fields[i] == star);
        }
    }
}

/// The numbers that a step reaches below `end` are all those and no others, in order.
pub proof fn law_progression(from: int, step: int, end: int)
    requires
        step > 0,
    ensures
        forall|i: int|
            0 <= i < progression(from, step, end).len() ==> #[trigger] progression(from, step, end)[i]
                == from + i * step && from <= from + i * step < end,
        from + progression(from, step, end).len() * step >= end,
        from < end ==> progression(from, step, end).len() > 0,
    decreases
            if from < end {
                end - from
            } else {
                0
            },
{
    if from < end {
        let rest = progression(from + step, step, end);
        let all = progression(from, step, end);
        law_progression(from + step, step, end);
        assert forall|i: int| 0 <= i < all.len() implies #[trigger] all[i] == from + i * step
            && from <= from + i * step < end by {
            if i > 0 {
                assert(all[i] == rest[i - 1]);
                assert(from + step + (i - 1) * step == from + i * step) by (nonlinear_arith);
            } else {
                assert(0 * step == 0) by (nonlinear_arith);
            }
        }
        assert(from + step + rest.len() * step == from + (rest.len() + 1) * step)
            by (nonlinear_arith);
    } else {
        assert(0 * step == 0) by (nonlinear_arith);
    }
}

/// A part of a field of standard cron whose numbers go from `lo` to `hi`: a step, a range with
/// a step, a range, a number, or a star.
pub open spec fn is_standard_part(p: Seq<char>, lo: int, hi: int) -> bool {
    let max = u32::MAX as int;
    match (step_of(p), stepped_of(p), range_of(p, max), unsigned(p, max)) {
        (Some(n), _, _, _) => n >= 1,
        (None, Some((a, b, _)), _, _) => lo <= a <= b <= hi,
        (None, None, Some((a, b)), _) => lo <= a <= b <= hi,
        (None, None, None, Some(n)) => lo <= n <= hi,
        (None, None, None, None) => p == "*"@,
    }
}

/// A field of standard cron whose numbers go from `lo` to `hi`: such a part, or a list of
/// them.
pub open spec fn is_standard_field(f: Seq<char>, lo: int, hi: int) -> bool {
    forall|i: int|
        0 <= i < pieces(f, ',').len() ==> is_standard_part(#[trigger] pieces(f, ',')[i], lo, hi)
}

/// A part of the last field of standard cron: the number of a day of the week, a step, a range
/// of such numbers, or one with a step.
pub open spec fn is_standard_day(p: Seq<char>) -> bool {
    let max = usize::MAX as int;
    match (unsigned(p, max), step_of(p), stepped_of(p), range_of(p, max)) {
        (Some(n), _, _, _) => n <= 6,
        (None, Some(n), _, _) => n >= 1,
        (None, None, Some((a, b, _)), _) => a <= b <= 6,
        (None, None, None, Some((a, b))) => a <= b <= 6,
        (None, None, None, None) => false,
    }
}

/// The last field of standard cron: a star, such a part, or a list of them.
pub open spec fn is_standard_dow(f: Seq<char>) -> bool {
    f == "*"@ || forall|i: int|
        0 <= i < pieces(f, ',').len() ==> is_standard_day(#[trigger] pieces(f, ',')[i])
}

/// A component of a calendar expression whose numbers all lie from `lo` to `hi`: a star, or a
/// list of entries.
pub open spec fn is_component(t: Seq<char>, lo: int, hi: int) -> bool {
    t == "*"@ || exists|items: Seq<Item>|
        items.len() > 0 && (forall|i: int|
            0 <= i < items.len() ==> (#[trigger] items[i]).within(lo, hi)) && t == joined(
            #[trigger] item_texts(items, 2),
            ","@,
        )
}

/// The name of a day of the week, or of the first and the last of a range of them.
pub open spec fn is_day_entry(t: Seq<char>) -> bool {
    exists|a: int, b: int|
        0 <= a <= b <= 6 && (t == day_name(a) || t == #[trigger] day_name(a) + ".."@
            + #[trigger] day_name(b))
}

/// The days of the week in a calendar expression: nothing, or a list of days and ranges.
pub open spec fn is_day_component(t: Seq<char>) -> bool {
    t.len() == 0 || exists|names: Seq<Seq<char>>|
        names.len() > 0 && (forall|i: int|
            0 <= i < names.len() ==> is_day_entry(#[trigger] names[i])) && t == #[trigger] joined(
            names,
            ","@,
        )
}

proof fn lemma_standard_part(p: Seq<char>, lo: int, hi: int)
    requires
        lo <= hi,
        is_standard_part(p, lo, hi),
    ensures
        items_of(p, lo, hi + 1) matches Some(items) && items.len() > 0 && forall|i: int|
            0 <= i < items.len() ==> (#[trigger] items[i]).within(lo, hi),
{
    if let Some(n) = step_of(p) {
        let all = progression(lo, n, hi + 1);
        law_progression(lo, n, hi + 1);
        let items = all.map_values(|v: int| Item::Number(v));
        assert forall|i: int| 0 <= i < items.len() implies (#[trigger] items[i]).within(lo, hi) by {
            assert(all[i] == lo + i * n);
        }
    }
}

proof fn lemma_standard_list(parts: Seq<Seq<char>>, lo: int, hi: int)
    requires
        lo <= hi,
        forall|i: int| 0 <= i < parts.len() ==> is_standard_part(#[trigger] parts[i], lo, hi),
    ensures
        parts.len() > 0 ==> list_items(parts, lo, hi + 1).len() > 0,
        forall|i: int|
            0 <= i < list_items(parts, lo, hi + 1).len() ==> (#[trigger] list_items(
                parts,
                lo,
                hi + 1,
            )[i]).within(lo, hi),
    decreases parts.len(),
{
    if parts.len() > 0 {
        let front = parts.drop_last();
        assert forall|i: int| 0 <= i < front.len() implies is_standard_part(
            #[trigger] front[i],
            lo,
            hi,
        ) by {
            assert(is_standard_part(parts[i], lo, hi));
        }
        lemma_standard_list(front, lo, hi);
        assert(is_standard_part(parts[parts.len() - 1], lo, hi));
        lemma_standard_part(parts.last(), lo, hi);
        let rest = list_items(front, lo, hi + 1);
        let items = items_of(parts.last(), lo, hi + 1)->0;
        let all = list_items(parts, lo, hi + 1);
        assert(all == rest + items);
        assert forall|i: int| 0 <= i < all.len() implies (#[trigger] all[i]).within(lo, hi) by {
            if i < rest.len() {
                assert(all[i] == rest[i]);
            } else {
                assert(all[i] == items[i - rest.len()]);
            }
        }
    }
}

/// A number is written with digits, and a plus sign at most.
proof fn lemma_number_has_no(s: Seq<char>, max: int, c: char)
    requires
        unsigned(s, max) is Some,
        !is_digit(c),
        c != '+',
    ensures
        !has_char(s, c),
{
    assert forall|i: int| 0 <= i < s.len() implies s[i] != c by {
        if s[0] == '+' {
            if i > 0 {
                assert(is_digit(s.skip(1)[i - 1]));
            }
        } else {
            assert(is_digit(s[i]));
        }
    }
}

/// A field of standard cron becomes a component whose numbers are all ones that the field may
/// name: no day is numbered 0, and no month.
pub proof fn law_standard_fields_stay_in_bounds(f: Seq<char>, lo: int, hi: int)
    requires
        lo <= hi,
        is_standard_field(f, lo, hi),
    ensures
        is_component(field_text(f, lo, hi + 1, 2), lo, hi),
        step_of(f) != Some(0int),
{
    reveal_strlit("*/");
    let parts = pieces(f, ',');
    if has_char(f, ',') {
        lemma_standard_list(parts, lo, hi);
        let items = list_items(parts, lo, hi + 1);
        assert(f != "*"@) by {
            reveal_strlit("*");
        }
        assert(field_text(f, lo, hi + 1, 2) == joined(item_texts(items, 2), ","@));
        if step_of(f) is Some {
            let rest = f.skip(2);
            lemma_number_has_no(rest, u32::MAX as int, ',');
            let i = choose|i: int| 0 <= i < f.len() && f[i] == ',';
            assert(f.take(2)[0] == f[0] && f.take(2)[1] == f[1]);
            assert(rest[i - 2] == ',');
        }
    } else {
        lemma_one_piece(f, ',');
        assert(is_standard_part(parts[0], lo, hi));
        lemma_standard_part(f, lo, hi);
        let items = items_of(f, lo, hi + 1)->0;
        assert(f == "*"@ || field_text(f, lo, hi + 1, 2) == joined(item_texts(items, 2), ","@));
    }
}

proof fn lemma_standard_day(p: Seq<char>)
    requires
        is_standard_day(p),
    ensures
        day_items(p) matches Some(days) && days.len() > 0 && forall|i: int|
            0 <= i < days.len() ==> is_day_entry(#[trigger] days[i]),
{
    let max = usize::MAX as int;
    match (unsigned(p, max), step_of(p), stepped_of(p), range_of(p, max)) {
        (Some(n), _, _, _) => {
            lemma_number_is_natural(p, max);
            assert(is_day_entry(day_name(n)));
        },
        (None, Some(n), _, _) => {
            lemma_days_are_entries(0, n, 7);
        },
        (None, None, Some((a, b, n)), _) => {
            lemma_number_is_natural(pieces(pieces(p, '/')[0], '-')[0], u32::MAX as int);
            lemma_days_are_entries(a, n, b + 1);
        },
        (None, None, None, Some((a, b))) => {
            lemma_number_is_natural(pieces(p, '-')[0], max);
            assert(is_day_entry(day_name(a) + ".."@ + day_name(b)));
        },
        (None, None, None, None) => {},
    }
}

proof fn lemma_days_are_entries(from: int, step: int, end: int)
    requires
        step > 0,
        0 <= from < end <= 7,
    ensures
        day_list(progression(from, step, end)).len() > 0,
        forall|i: int|
            0 <= i < day_list(progression(from, step, end)).len() ==> is_day_entry(
                #[trigger] day_list(progression(from, step, end))[i],
            ),
{
    let days = progression(from, step, end);
    law_progression(from, step, end);
    assert forall|i: int| 0 <= i < days.len() implies is_day_entry(
        #[trigger] day_list(days)[i],
    ) by {
        assert(days[i] == from + i * step);
        assert(day_list(days)[i] == day_name(days[i]));
    }
}

proof fn lemma_standard_day_list(parts: Seq<Seq<char>>)
    requires
        forall|i: int| 0 <= i < parts.len() ==> is_standard_day(#[trigger] parts[i]),
    ensures
        list_days(parts) matches Ok(days) && (parts.len() > 0 ==> days.len() > 0) && forall|i: int|
            0 <= i < days.len() ==> is_day_entry(#[trigger] days[i]),
    decreases parts.len(),
{
    if parts.len() > 0 {
        let front = parts.drop_last();
        assert forall|i: int| 0 <= i < front.len() implies is_standard_day(#[trigger] front[i]) by {
            assert(is_standard_day(parts[i]));
        }
        lemma_standard_day_list(front);
        assert(is_standard_day(parts[parts.len() - 1]));
        lemma_standard_day(parts.last());
        let rest = list_days(front)->Ok_0;
        let more = day_items(parts.last())->0;
        let all = rest + more;
        assert(list_days(parts) == Ok::<Seq<Seq<char>>, Seq<char>>(all));
        assert forall|i: int| 0 <= i < all.len() implies is_day_entry(#[trigger] all[i]) by {
            if i < rest.len() {
                assert(all[i] == rest[i]);
            } else {
                assert(all[i] == more[i - rest.len()]);
            }
        }
    }
}

proof fn lemma_number_is_natural(s: Seq<char>, max: int)
    ensures
        unsigned(s, max) matches Some(n) ==> 0 <= n <= max,
{
    if unsigned(s, max) is Some {
        if s[0] == '+' {
            lemma_digits_value_bounds(s.skip(1));
        } else {
            lemma_digits_value_bounds(s);
        }
    }
}

/// The last field of standard cron becomes a list of the names of days.
pub proof fn law_standard_days_have_names(f: Seq<char>)
    requires
        is_standard_dow(f),
    ensures
        dow_text(f) matches Ok(t) && is_day_component(t),
{
    let parts = pieces(f, ',');
    if f != "*"@ {
        if has_char(f, ',') {
            lemma_standard_day_list(parts);
            let days = list_days(parts)->Ok_0;
            assert(dow_text(f) == Ok::<Seq<char>, Seq<char>>(joined(days, ","@)));
        } else {
            lemma_one_piece(f, ',');
            assert(is_standard_day(parts[0]));
            lemma_standard_day(f);
            let days = day_items(f)->0;
            assert(dow_text(f) == Ok::<Seq<char>, Seq<char>>(joined(days, ","@)));
        }
    }
}

/// A step of days of the week names the days that it reaches from Sunday on.
pub proof fn law_day_step_counts_from_sunday(n: int)
    requires
        0 < n <= u32::MAX,
    ensures
        dow_text("*/"@ + decimal(n)) == Ok::<Seq<char>, Seq<char>>(
            joined(day_list(progression(0, n, 7)), ","@),
        ),
{
    reveal_strlit("*/");
    reveal_strlit("*");
    lemma_plain_number(n);
    let f = "*/"@ + decimal(n);
    assert(f.take(2) == "*/"@);
    assert(f.skip(2) == decimal(n));
    lemma_neither_has_char("*/"@, decimal(n), ',');
    if unsigned(f, usize::MAX as int) is Some {
        lemma_number_has_no(f, usize::MAX as int, '*');
        assert(f[0] == '*');
    }
}

/// Every expression of standard cron has a calendar expression, and one whose minutes, hours,
/// days, months and days of the week all exist.
pub proof fn law_standard_cron_is_converted(expr: Seq<char>)
    requires
        words(expr).len() == 5,
        is_standard_field(words(expr)[0], 0, 59),
        is_standard_field(words(expr)[1], 0, 23),
        is_standard_field(words(expr)[2], 1, 31),
        is_standard_field(words(expr)[3], 1, 12),
        is_standard_dow(words(expr)[4]),
    ensures
        !zero_step(expr),
        dow_text(words(expr)[4]) is Ok,
        calendar_of(expr) == Ok::<Seq<char>, CronFault>(
            calendar_text(words(expr), dow_text(words(expr)[4])->Ok_0),
        ),
        is_component(field_text(words(expr)[0], 0, 60, 2), 0, 59),
        is_component(field_text(words(expr)[1], 0, 24, 2), 0, 23),
        is_component(field_text(words(expr)[2], 1, 32, 2), 1, 31),
        is_component(field_text(words(expr)[3], 1, 13, 2), 1, 12),
        is_day_component(dow_text(words(expr)[4])->Ok_0),
{
    let fields = words(expr);
    law_standard_fields_stay_in_bounds(fields[0], 0, 59);
    law_standard_fields_stay_in_bounds(fields[1], 0, 23);
    law_standard_fields_stay_in_bounds(fields[2], 1, 31);
    law_standard_fields_stay_in_bounds(fields[3], 1, 12);
    law_standard_days_have_names(fields[4]);
}

/// The calendar expression of five fields is the days of the week and a space where there are
/// any, then `*-`, the month, a hyphen, the day, a space, the hour, a colon and the minute.
pub proof fn law_calendar_holds_every_field(
    minute: Seq<char>,
    hour: Seq<char>,
    day: Seq<char>,
    month: Seq<char>,
    dow: Seq<char>,
)
    requires
        is_word(minute),
        is_word(hour),
        is_word(day),
        is_word(month),
        is_word(dow),
    ensures
        dow_text(dow) matches Ok(days) ==> calendar_of(five(minute, hour, day, month, dow)) == Ok::<
            Seq<char>,
            CronFault,
        >(
            (if days.len() == 0 {
                Seq::<char>::empty()
            } else {
                days + seq![' ']
            }) + seq!['*', '-'] + field_text(month, 1, 13, 2) + seq!['-'] + field_text(
                day,
                1,
                32,
                2,
            ) + seq![' '] + field_text(hour, 0, 24, 2) + seq![':'] + field_text(minute, 0, 60, 2),
        ),
        dow_text(dow) matches Err(e) ==> calendar_of(five(minute, hour, day, month, dow)) == Err::<
            Seq<char>,
            CronFault,
        >(CronFault::DayOfWeek(e)),
{
    let expr = five(minute, hour, day, month, dow);
    lemma_five_words(minute, hour, day, month, dow);
    lemma_calendar_of(expr, minute, hour, day, month, dow);
}

proof fn lemma_calendar_of(
    expr: Seq<char>,
    minute: Seq<char>,
    hour: Seq<char>,
    day: Seq<char>,
    month: Seq<char>,
    dow: Seq<char>,
)
    requires
        words(expr) == seq![minute, hour, day, month, dow],
    ensures
        dow_text(dow) matches Ok(days) ==> calendar_of(expr) == Ok::<Seq<char>, CronFault>(
            (if days.len() == 0 {
                Seq::<char>::empty()
            } else {
                days + seq![' ']
            }) + seq!['*', '-'] + field_text(month, 1, 13, 2) + seq!['-'] + field_text(
                day,
                1,
                32,
                2,
            ) + seq![' '] + field_text(hour, 0, 24, 2) + seq![':'] + field_text(minute, 0, 60, 2),
        ),
        dow_text(dow) matches Err(e) ==> calendar_of(expr) == Err::<Seq<char>, CronFault>(
            CronFault::DayOfWeek(e),
        ),
{
    if let Ok(days) = dow_text(dow) {
        lemma_calendar_text(words(expr), days);
    }
}

proof fn lemma_calendar_text(fields: Seq<Seq<char>>, days: Seq<char>)
    ensures
        calendar_text(fields, days) == (if days.len() == 0 {
            Seq::<char>::empty()
        } else {
            days + seq![' ']
        }) + seq!['*', '-'] + field_text(fields[3], 1, 13, 2) + seq!['-'] + field_text(
            fields[2],
            1,
            32,
            2,
        ) + seq![' '] + field_text(fields[1], 0, 24, 2) + seq![':'] + field_text(
            fields[0],
            0,
            60,
            2,
        ),
{
    let head = if days.len() == 0 {
        Seq::<char>::empty()
    } else {
        days + seq![' ']
    };
    lemma_written_out(
        calendar_text(fields, days),
        head,
        days,
        field_text(fields[3], 1, 13, 2),
        field_text(fields[2], 1, 32, 2),
        field_text(fields[1], 0, 24, 2),
        field_text(fields[0], 0, 60, 2),
    );
}

/// The parts of a calendar expression, one after the other.
proof fn lemma_written_out(
    text: Seq<char>,
    head: Seq<char>,
    days: Seq<char>,
    mo: Seq<char>,
    d: Seq<char>,
    h: Seq<char>,
    m: Seq<char>,
)
    requires
        head == if days.len() == 0 {
            Seq::<char>::empty()
        } else {
            days + seq![' ']
        },
        text == (if days.len() == 0 {
            "*-"@ + mo + "-"@ + d + " "@ + (h + ":"@ + m)
        } else {
            days + " "@ + ("*-"@ + mo + "-"@ + d) + " "@ + (h + ":"@ + m)
        }),
    ensures
        text == head + seq!['*', '-'] + mo + seq!['-'] + d + seq![' '] + h + seq![':'] + m,
{
    reveal_strlit("*-");
    reveal_strlit("-");
    reveal_strlit(" ");
    reveal_strlit(":");
    assert("*-"@ == seq!['*', '-']);
    assert("-"@ == seq!['-']);
    assert(" "@ == seq![' ']);
    assert(":"@ == seq![':']);
    assert(text =~= head + seq!['*', '-'] + mo + seq!['-'] + d + seq![' '] + h + seq![':'] + m);
}

/// An expression of five numbers fires in that minute of that hour, on that day of that month
/// where it falls on that day of the week. With a star for the day of the week, it is left out.
pub proof fn law_five_numbers_all_count(m: int, h: int, d: int, mo: int, w: int)
    requires
        0 <= m <= 59,
        0 <= h <= 23,
        1 <= d <= 31,
        1 <= mo <= 12,
        0 <= w <= 6,
    ensures
        calendar_of(five(decimal(m), decimal(h), decimal(d), decimal(mo), decimal(w))) == Ok::<
            Seq<char>,
            CronFault,
        >(
            day_name(w) + seq![' ', '*', '-'] + padded(mo, 2) + seq!['-'] + padded(d, 2)
                + seq![' '] + padded(h, 2) + seq![':'] + padded(m, 2),
        ),
        calendar_of(five(decimal(m), decimal(h), decimal(d), decimal(mo), seq!['*'])) == Ok::<
            Seq<char>,
            CronFault,
        >(
            seq!['*', '-'] + padded(mo, 2) + seq!['-'] + padded(d, 2) + seq![' '] + padded(h, 2)
                + seq![':'] + padded(m, 2),
        ),
        !zero_step(five(decimal(m), decimal(h), decimal(d), decimal(mo), decimal(w))),
{
    lemma_numbers_on_a_day(m, h, d, mo, w);
    lemma_numbers_on_any_day(m, h, d, mo);
    assert(is_word(decimal(w))) by {
        lemma_number_is_word(w);
    }
    lemma_numbers_have_no_zero_step(m, h, d, mo, decimal(w));
}

#[verifier::spinoff_prover]
#[verifier::rlimit(60)]
proof fn lemma_numbers_on_a_day(m: int, h: int, d: int, mo: int, w: int)
    requires
        0 <= m <= 59,
        0 <= h <= 23,
        1 <= d <= 31,
        1 <= mo <= 12,
        0 <= w <= 6,
    ensures
        calendar_of(five(decimal(m), decimal(h), decimal(d), decimal(mo), decimal(w))) == Ok::<
            Seq<char>,
            CronFault,
        >(
            day_name(w) + seq![' ', '*', '-'] + padded(mo, 2) + seq!['-'] + padded(d, 2)
                + seq![' '] + padded(h, 2) + seq![':'] + padded(m, 2),
        ),
{
    let days = day_name(w);
    assert(days.len() == 3) by {
        law_days_by_name();
    }
    assert(is_word(decimal(w))) by {
        lemma_number_is_word(w);
    }
    assert(dow_text(decimal(w)) == Ok::<Seq<char>, Seq<char>>(days)) by {
        law_day_numbers_have_names(w);
    }
    assert(days + seq![' '] + seq!['*', '-'] == days + seq![' ', '*', '-']);
    lemma_numbers_with_days(m, h, d, mo, decimal(w), days);
}

#[verifier::spinoff_prover]
#[verifier::rlimit(60)]
proof fn lemma_numbers_on_any_day(m: int, h: int, d: int, mo: int)
    requires
        0 <= m <= 59,
        0 <= h <= 23,
        1 <= d <= 31,
        1 <= mo <= 12,
    ensures
        calendar_of(five(decimal(m), decimal(h), decimal(d), decimal(mo), seq!['*'])) == Ok::<
            Seq<char>,
            CronFault,
        >(
            seq!['*', '-'] + padded(mo, 2) + seq!['-'] + padded(d, 2) + seq![' '] + padded(h, 2)
                + seq![':'] + padded(m, 2),
        ),
{
    assert(dow_text(seq!['*']) == Ok::<Seq<char>, Seq<char>>(Seq::empty())) by {
        law_lone_star_stays(0, 1, 0);
    }
    assert(is_word(seq!['*']));
    assert(Seq::<char>::empty() + seq!['*', '-'] == seq!['*', '-']);
    lemma_numbers_with_days(m, h, d, mo, seq!['*'], Seq::empty());
}

#[verifier::spinoff_prover]
#[verifier::rlimit(60)]
proof fn lemma_numbers_with_days(
    m: int,
    h: int,
    d: int,
    mo: int,
    dow: Seq<char>,
    days: Seq<char>,
)
    requires
        0 <= m <= 59,
        0 <= h <= 23,
        1 <= d <= 31,
        1 <= mo <= 12,
        is_word(dow),
        dow_text(dow) == Ok::<Seq<char>, Seq<char>>(days),
    ensures
        calendar_of(five(decimal(m), decimal(h), decimal(d), decimal(mo), dow)) == Ok::<
            Seq<char>,
            CronFault,
        >(
            (if days.len() == 0 {
                Seq::<char>::empty()
            } else {
                days + seq![' ']
            }) + seq!['*', '-'] + padded(mo, 2) + seq!['-'] + padded(d, 2) + seq![' '] + padded(
                h,
                2,
            ) + seq![':'] + padded(m, 2),
        ),
{
    lemma_numbers_are_words(m, h, d, mo);
    law_calendar_holds_every_field(decimal(m), decimal(h), decimal(d), decimal(mo), dow);
}

proof fn lemma_number_is_word(n: int)
    requires
        0 <= n <= 59,
    ensures
        is_word(decimal(n)),
        step_of(decimal(n)) is None,
{
    law_number_is_padded(n, 0, 1, 0);
}

proof fn lemma_numbers_are_words(m: int, h: int, d: int, mo: int)
    requires
        0 <= m <= 59,
        0 <= h <= 23,
        1 <= d <= 31,
        1 <= mo <= 12,
    ensures
        is_word(decimal(m)) && field_text(decimal(m), 0, 60, 2) == padded(m, 2),
        is_word(decimal(h)) && field_text(decimal(h), 0, 24, 2) == padded(h, 2),
        is_word(decimal(d)) && field_text(decimal(d), 1, 32, 2) == padded(d, 2),
        is_word(decimal(mo)) && field_text(decimal(mo), 1, 13, 2) == padded(mo, 2),
        step_of(decimal(m)) is None,
        step_of(decimal(h)) is None,
        step_of(decimal(d)) is None,
        step_of(decimal(mo)) is None,
{
    law_number_is_padded(m, 0, 60, 2);
    law_number_is_padded(h, 0, 24, 2);
    law_number_is_padded(d, 1, 32, 2);
    law_number_is_padded(mo, 1, 13, 2);
}

proof fn lemma_numbers_have_no_zero_step(m: int, h: int, d: int, mo: int, dow: Seq<char>)
    requires
        0 <= m <= 59,
        0 <= h <= 23,
        1 <= d <= 31,
        1 <= mo <= 12,
        is_word(dow),
    ensures
        !zero_step(five(decimal(m), decimal(h), decimal(d), decimal(mo), dow)),
{
    lemma_number_is_word(m);
    lemma_number_is_word(h);
    lemma_number_is_word(d);
    lemma_number_is_word(mo);
    let expr = five(decimal(m), decimal(h), decimal(d), decimal(mo), dow);
    lemma_five_words(decimal(m), decimal(h), decimal(d), decimal(mo), dow);
    lemma_zero_step_of(expr, words(expr));
}

/// Where a step of zero is looked for.
proof fn lemma_zero_step_of(expr: Seq<char>, fields: Seq<Seq<char>>)
    requires
        fields == words(expr),
        fields.len() == 5,
    ensures
        step_of(fields[0]) is None && step_of(fields[1]) is None && step_of(fields[2]) is None
            && step_of(fields[3]) is None ==> !zero_step(expr),
        dow_text(fields[4]) is Ok && (step_of(fields[0]) == Some(0int) || step_of(fields[1])
            == Some(0int) || step_of(fields[2]) == Some(0int) || step_of(fields[3]) == Some(0int))
            ==> zero_step(expr),
{
}

/// The days of the week by their names, Sunday first.
pub proof fn law_days_by_name()
    ensures
        day_name(0) == seq!['S', 'u', 'n'],
        day_name(1) == seq!['M', 'o', 'n'],
        day_name(2) == seq!['T', 'u', 'e'],
        day_name(3) == seq!['W', 'e', 'd'],
        day_name(4) == seq!['T', 'h', 'u'],
        day_name(5) == seq!['F', 'r', 'i'],
        day_name(6) == seq!['S', 'a', 't'],
{
    reveal_strlit("Sun");
    reveal_strlit("Mon");
    reveal_strlit("Tue");
    reveal_strlit("Wed");
    reveal_strlit("Thu");
    reveal_strlit("Fri");
    reveal_strlit("Sat");
    assert(day_name(0) =~= seq!['S', 'u', 'n']);
    assert(day_name(1) =~= seq!['M', 'o', 'n']);
    assert(day_name(2) =~= seq!['T', 'u', 'e']);
    assert(day_name(3) =~= seq!['W', 'e', 'd']);
    assert(day_name(4) =~= seq!['T', 'h', 'u']);
    assert(day_name(5) =~= seq!['F', 'r', 'i']);
    assert(day_name(6) =~= seq!['S', 'a', 't']);
}

/// A lone star stays a star in each field of numbers, and leaves the days of the week out.
pub proof fn law_lone_star_stays(first: int, end: int, pad: int)
    ensures
        field_text(seq!['*'], first, end, pad) == seq!['*'],
        dow_text(seq!['*']) == Ok::<Seq<char>, Seq<char>>(Seq::empty()),
{
    reveal_strlit("*");
    assert("*"@ == seq!['*']);
}

/// A range with a step stays one, of the same numbers.
pub proof fn law_stepped_range_keeps_its_step(a: int, b: int, n: int, first: int, end: int, pad: int)
    requires
        0 <= a <= u32::MAX,
        0 <= b <= u32::MAX,
        0 < n <= u32::MAX,
    ensures
        field_text(decimal(a) + seq!['-'] + decimal(b) + seq!['/'] + decimal(n), first, end, pad)
            == padded(a, pad) + seq!['.', '.'] + padded(b, pad) + seq!['/'] + decimal(n),
        a <= b < 7 ==> dow_text(decimal(a) + seq!['-'] + decimal(b) + seq!['/'] + decimal(n))
            == Ok::<Seq<char>, Seq<char>>(
            joined(progression(a, n, b + 1).map_values(|v: int| day_name(v)), seq![',']),
        ),
{
    reveal_strlit("-");
    reveal_strlit("/");
    reveal_strlit("..");
    reveal_strlit(",");
    assert("-"@ == seq!['-']);
    assert("/"@ == seq!['/']);
    assert(".."@ == seq!['.', '.']);
    assert(","@ == seq![',']);
    let item = Item::Stepped(a, b, n);
    let f = item.cron_text();
    lemma_item_reads_back(item, first, end);
    assert(item_texts(seq![item], pad) == seq![item.text(pad)]);
    if a <= b < 7 {
        let max = usize::MAX as int;
        lemma_range_reads_back(a, b);
        lemma_plain_number(n);
        lemma_two_pieces(decimal(a) + "-"@ + decimal(b), decimal(n), '/');
        if unsigned(f, max) is Some {
            lemma_number_has_no(f, max, '/');
        }
        assert(stepped_of(f) == Some((a, b, n)));
        assert(day_items(f) == Some(day_list(progression(a, n, b + 1))));
        assert(day_list(progression(a, n, b + 1)) == progression(a, n, b + 1).map_values(
            |v: int| day_name(v),
        ));
    }
}

/// The days of the week that an entry of a list names.
pub open spec fn named_days(item: Item) -> Seq<char> {
    match item {
        Item::Number(n) => day_name(n),
        Item::Range(a, b) => day_name(a) + seq!['.', '.'] + day_name(b),
        Item::Stepped(..) => Seq::empty(),
    }
}

/// A list of days of the week and of ranges of them keeps every one of them, in order.
pub proof fn law_day_list_keeps_its_days(items: Seq<Item>)
    requires
        items.len() > 0,
        forall|i: int|
            0 <= i < items.len() ==> (#[trigger] items[i]).within(0, 6) && !(items[i] is Stepped),
    ensures
        dow_text(joined(items.map_values(|item: Item| item.cron_text()), seq![','])) == Ok::<
            Seq<char>,
            Seq<char>,
        >(joined(items.map_values(|item: Item| named_days(item)), seq![','])),
{
    reveal_strlit(",");
    reveal_strlit("*");
    assert(","@ == seq![',']);
    let parts = items.map_values(|item: Item| item.cron_text());
    let named = items.map_values(|item: Item| named_days(item));
    let f = joined(parts, seq![',']);
    assert forall|i: int| 0 <= i < parts.len() implies !has_char(#[trigger] parts[i], ',') by {
        assert(items[i].within(0, 6));
        lemma_item_reads_back(items[i], 0, 1);
    }
    assert(items[0].within(0, 6));
    lemma_item_reads_back(items[0], 0, 1);
    assert(parts[0] == items[0].cron_text());
    lemma_joined_starts(parts, seq![',']);
    assert(f != "*"@);
    if items.len() == 1 {
        lemma_named_days(items[0]);
        assert(f == parts[0]);
        assert(named == seq![named_days(items[0])]);
        assert(joined(named, seq![',']) == named_days(items[0]));
        assert(joined(seq![named_days(items[0])], ","@) == named_days(items[0]));
    } else {
        lemma_pieces_of_joined(parts, ',');
        lemma_joined_has_separator(parts, ',');
        lemma_list_days_of(items);
    }
}

proof fn lemma_named_days(item: Item)
    requires
        item.within(0, 6),
        !(item is Stepped),
    ensures
        day_items(item.cron_text()) == Some(seq![named_days(item)]),
        unsigned(item.cron_text(), usize::MAX as int) matches Some(n) ==> n < 7,
        looks_like_range(item.cron_text()) ==> range_of(item.cron_text(), usize::MAX as int) is Some,
{
    reveal_strlit("-");
    reveal_strlit("..");
    assert("-"@ == seq!['-']);
    assert(".."@ == seq!['.', '.']);
    let f = item.cron_text();
    lemma_item_reads_back(item, 0, 1);
    match item {
        Item::Number(n) => {
            lemma_plain_number(n);
        },
        Item::Range(a, b) => {
            lemma_range_reads_back(a, b);
            lemma_one_piece(f, '/');
            if unsigned(f, usize::MAX as int) is Some {
                lemma_plain_number(a);
                lemma_plain_number(b);
                lemma_two_pieces(decimal(a), decimal(b), '-');
                lemma_number_has_no(f, usize::MAX as int, '-');
            }
        },
        Item::Stepped(..) => {},
    }
}

proof fn lemma_list_days_of(items: Seq<Item>)
    requires
        forall|i: int|
            0 <= i < items.len() ==> (#[trigger] items[i]).within(0, 6) && !(items[i] is Stepped),
    ensures
        list_days(items.map_values(|item: Item| item.cron_text())) == Ok::<
            Seq<Seq<char>>,
            Seq<char>,
        >(items.map_values(|item: Item| named_days(item))),
    decreases items.len(),
{
    let parts = items.map_values(|item: Item| item.cron_text());
    let named = items.map_values(|item: Item| named_days(item));
    if items.len() > 0 {
        let front = items.drop_last();
        assert forall|i: int| 0 <= i < front.len() implies (#[trigger] front[i]).within(0, 6) && !(
        front[i] is Stepped) by {
            assert(items[i].within(0, 6));
        }
        lemma_list_days_of(front);
        assert(items[items.len() - 1].within(0, 6));
        lemma_named_days(items.last());
        assert(parts.drop_last() == front.map_values(|item: Item| item.cron_text()));
        assert(parts.last() == items.last().cron_text());
        assert(front.map_values(|item: Item| named_days(item)) + seq![named_days(items.last())]
            == named);
    } else {
        assert(named == Seq::<Seq<char>>::empty());
    }
}

/// A character that stands in no number, range or step.
pub open spec fn is_foreign(c: char) -> bool {
    !('0' <= c <= '9') && c != '+' && c != '-' && c != '/' && c != '*' && c != ','
}

/// A character of a text is in one of its pieces, unless it separates them.
proof fn lemma_some_piece_has(s: Seq<char>, sep: char, c: char)
    requires
        has_char(s, c),
        c != sep,
    ensures
        exists|i: int|
            0 <= i < pieces(s, sep).len() && has_char(#[trigger] pieces(s, sep)[i], c),
    decreases s.len(),
{
    lemma_find_char(s, sep);
    let f = find_char(s, sep) as int;
    let ps = pieces(s, sep);
    let k = choose|k: int| 0 <= k < s.len() && s[k] == c;
    if f >= s.len() {
        assert(has_char(ps[0], c));
    } else if k < f {
        assert(ps[0] == s.take(f));
        assert(s.take(f)[k] == c);
        assert(has_char(ps[0], c));
    } else {
        let rest = s.skip(f + 1);
        assert(k != f);
        assert(rest[k - f - 1] == c);
        lemma_some_piece_has(rest, sep, c);
        let i = choose|i: int|
            0 <= i < pieces(rest, sep).len() && has_char(#[trigger] pieces(rest, sep)[i], c);
        assert(ps[i + 1] == pieces(rest, sep)[i]);
        assert(has_char(ps[i + 1], c));
    }
}

proof fn lemma_foreign_range(s: Seq<char>, c: char, max: int)
    requires
        is_foreign(c),
        has_char(s, c),
    ensures
        range_of(s, max) is None,
{
    if range_of(s, max) is Some {
        lemma_some_piece_has(s, '-', c);
        let i = choose|i: int| 0 <= i < pieces(s, '-').len() && has_char(
            #[trigger] pieces(s, '-')[i],
            c,
        );
        assert(i == 0 || i == 1);
        lemma_number_has_no(pieces(s, '-')[i], max, c);
    }
}

proof fn lemma_foreign_part(s: Seq<char>, c: char, first: int, end: int)
    requires
        is_foreign(c),
        has_char(s, c),
    ensures
        items_of(s, first, end) is None,
        day_items(s) is None,
        unsigned(s, usize::MAX as int) is None,
{
    reveal_strlit("*");
    reveal_strlit("*/");
    let max = u32::MAX as int;
    let k = choose|k: int| 0 <= k < s.len() && s[k] == c;
    if unsigned(s, max) is Some {
        lemma_number_has_no(s, max, c);
    }
    if unsigned(s, usize::MAX as int) is Some {
        lemma_number_has_no(s, usize::MAX as int, c);
    }
    lemma_foreign_range(s, c, max);
    lemma_foreign_range(s, c, usize::MAX as int);
    if step_of(s) is Some {
        let rest = s.skip(2);
        lemma_number_has_no(rest, max, c);
        assert(s.take(2)[0] == s[0] && s.take(2)[1] == s[1]);
        assert(rest[k - 2] == c);
    }
    if stepped_of(s) is Some {
        lemma_some_piece_has(s, '/', c);
        let sides = pieces(s, '/');
        let i = choose|i: int| 0 <= i < sides.len() && has_char(#[trigger] sides[i], c);
        if i == 0 {
            lemma_foreign_range(sides[0], c, max);
        } else {
            lemma_number_has_no(sides[1], max, c);
        }
    }
    assert(s != "*"@) by {
        if s == "*"@ {
            assert(s[k] == '*');
        }
    }
}

/// A field with a letter, or with any other character that no number, range or step has, stays
/// as it is unless it is a list; for the days of the week it is refused as a list or a range.
pub proof fn law_foreign_fields_stay(f: Seq<char>, c: char, first: int, end: int, pad: int)
    requires
        is_foreign(c),
        has_char(f, c),
    ensures
        !has_char(f, ',') ==> field_text(f, first, end, pad) == f,
        !has_char(f, ',') && !has_char(f, '-') ==> dow_text(f) == Ok::<Seq<char>, Seq<char>>(f),
        has_char(f, ',') ==> dow_text(f) is Err,
        !has_char(f, ',') && pieces(f, '-').len() == 2 ==> dow_text(f) is Err,
{
    reveal_strlit("*");
    lemma_foreign_part(f, c, first, end);
    lemma_foreign_range(f, c, usize::MAX as int);
    let k = choose|k: int| 0 <= k < f.len() && f[k] == c;
    assert(f != "*"@) by {
        if f == "*"@ {
            assert(f[k] == '*');
        }
    }
    if has_char(f, ',') {
        let parts = pieces(f, ',');
        lemma_some_piece_has(f, ',', c);
        let i = choose|i: int| 0 <= i < parts.len() && has_char(#[trigger] parts[i], c);
        lemma_foreign_part(parts[i], c, first, end);
        lemma_bad_part(parts, i);
    } else if pieces(f, '-').len() == 2 {
        if !has_char(f, '-') {
            lemma_one_piece(f, '-');
        }
    }
}

proof fn lemma_bad_part(parts: Seq<Seq<char>>, i: int)
    requires
        0 <= i < parts.len(),
        day_items(parts[i]) is None,
    ensures
        list_days(parts) is Err,
    decreases parts.len(),
{
    if i < parts.len() - 1 {
        assert(parts.drop_last()[i] == parts[i]);
        lemma_bad_part(parts.drop_last(), i);
    }
}

/// An expression of another number of words than five is refused, and told how many it has.
pub proof fn law_five_fields_are_needed(expr: Seq<char>)
    requires
        words(expr).len() <= usize::MAX,
    ensures
        words(expr).len() != 5 ==> (calendar_of(expr) matches Err(CronFault::FieldCount(n)) && n
            == words(expr).len()),
        words(expr).len() == 5 ==> !(calendar_of(expr) matches Err(CronFault::FieldCount(_))),
{
}

/// A step of zero is found in each of the fields of the minute, the hour, the day and the month.
pub proof fn law_zero_steps_are_found(
    minute: Seq<char>,
    hour: Seq<char>,
    day: Seq<char>,
    month: Seq<char>,
    dow: Seq<char>,
)
    requires
        is_word(minute),
        is_word(hour),
        is_word(day),
        is_word(month),
        is_word(dow),
        dow_text(dow) is Ok,
    ensures
        ({
            let none = seq!['*', '/', '0'];
            minute == none || hour == none || day == none || month == none
        }) ==> zero_step(five(minute, hour, day, month, dow)),
{
    let expr = five(minute, hour, day, month, dow);
    lemma_five_words(minute, hour, day, month, dow);
    lemma_step_of_zero();
    lemma_zero_step_of(expr, words(expr));
}

proof fn lemma_step_of_zero()
    ensures
        step_of(seq!['*', '/', '0']) == Some(0int),
{
    reveal_strlit("*/");
    let none = seq!['*', '/', '0'];
    assert("*/"@ == seq!['*', '/']);
    assert(none.take(2) == "*/"@);
    assert(none.skip(2) == seq!['0']);
    lemma_plain_number(0);
    assert(decimal(0) == seq!['0']);
}

/// What a part of a list is by itself: a star stands for all numbers of its field.
pub open spec fn part_alone(p: Seq<char>, lo: int, hi: int, pad: int) -> Seq<char> {
    if p == seq!['*'] {
        padded(lo, pad) + seq!['.', '.'] + padded(hi, pad)
    } else {
        field_text(p, lo, hi + 1, pad)
    }
}

/// A list of parts of standard cron is what each part is by itself, with commas between.
pub proof fn law_list_is_its_parts(parts: Seq<Seq<char>>, lo: int, hi: int, pad: int)
    requires
        0 <= lo <= hi,
        parts.len() >= 2,
        forall|i: int|
            0 <= i < parts.len() ==> is_standard_part(#[trigger] parts[i], lo, hi) && !has_char(
                parts[i],
                ',',
            ),
    ensures
        field_text(joined(parts, seq![',']), lo, hi + 1, pad) == joined(
            parts.map_values(|p: Seq<char>| part_alone(p, lo, hi, pad)),
            seq![','],
        ),
{
    reveal_strlit(",");
    assert(","@ == seq![',']);
    let f = joined(parts, seq![',']);
    lemma_pieces_of_joined(parts, ',');
    lemma_joined_has_separator(parts, ',');
    assert(f != "*"@) by {
        reveal_strlit("*");
    }
    lemma_parts_join(parts, lo, hi, pad);
}

proof fn lemma_part_alone(p: Seq<char>, lo: int, hi: int, pad: int)
    requires
        0 <= lo <= hi,
        is_standard_part(p, lo, hi),
        !has_char(p, ','),
    ensures
        items_of(p, lo, hi + 1) matches Some(items) && items.len() > 0 && joined(
            item_texts(items, pad),
            seq![','],
        ) == part_alone(p, lo, hi, pad),
{
    reveal_strlit(",");
    reveal_strlit("*");
    reveal_strlit("*/");
    reveal_strlit("..");
    assert(","@ == seq![',']);
    assert("*"@ == seq!['*']);
    assert(".."@ == seq!['.', '.']);
    lemma_standard_part(p, lo, hi);
    if p == seq!['*'] {
        let item = Item::Range(lo, hi);
        lemma_star();
        lemma_one_piece(p, '/');
        assert(!has_char(p, '-'));
        assert(!is_digit(p[0]));
        assert(unsigned(p, u32::MAX as int) is None);
        assert(items_of(p, lo, hi + 1) == Some(seq![item]));
        assert(item_texts(seq![item], pad) == seq![item.text(pad)]);
    }
}

proof fn lemma_parts_join(parts: Seq<Seq<char>>, lo: int, hi: int, pad: int)
    requires
        0 <= lo <= hi,
        parts.len() > 0,
        forall|i: int|
            0 <= i < parts.len() ==> is_standard_part(#[trigger] parts[i], lo, hi) && !has_char(
                parts[i],
                ',',
            ),
    ensures
        list_items(parts, lo, hi + 1).len() > 0,
        joined(item_texts(list_items(parts, lo, hi + 1), pad), seq![',']) == joined(
            parts.map_values(|p: Seq<char>| part_alone(p, lo, hi, pad)),
            seq![','],
        ),
    decreases parts.len(),
{
    let sep = seq![','];
    let alone = parts.map_values(|p: Seq<char>| part_alone(p, lo, hi, pad));
    let last = parts.last();
    assert(is_standard_part(parts[parts.len() - 1], lo, hi));
    lemma_part_alone(last, lo, hi, pad);
    let more = items_of(last, lo, hi + 1)->0;
    let front = parts.drop_last();
    let rest = list_items(front, lo, hi + 1);
    if parts.len() == 1 {
        assert(rest == Seq::<Item>::empty());
        assert(rest + more == more);
        assert(alone == seq![part_alone(last, lo, hi, pad)]);
    } else {
        assert forall|i: int| 0 <= i < front.len() implies is_standard_part(
            #[trigger] front[i],
            lo,
            hi,
        ) && !has_char(front[i], ',') by {
            assert(is_standard_part(parts[i], lo, hi));
        }
        lemma_parts_join(front, lo, hi, pad);
        assert(item_texts(rest + more, pad) == item_texts(rest, pad) + item_texts(more, pad));
        law_joining_goes_on(item_texts(rest, pad), item_texts(more, pad), sep);
        assert(alone.drop_last() == front.map_values(|p: Seq<char>| part_alone(p, lo, hi, pad)));
        assert(alone.last() == part_alone(last, lo, hi, pad));
    }
}

/// The parts of a list stand for what they stand for wherever they stand, and a part with a
/// character that no number, range or step has leaves no trace.
pub proof fn law_foreign_parts_leave_no_trace(
    a: Seq<Seq<char>>,
    p: Seq<char>,
    b: Seq<Seq<char>>,
    c: char,
    first: int,
    end: int,
)
    requires
        is_foreign(c),
        has_char(p, c),
    ensures
        list_items(a + seq![p] + b, first, end) == list_items(a + b, first, end),
        list_items(a + b, first, end) == list_items(a, first, end) + list_items(b, first, end),
    decreases b.len(),
{
    lemma_foreign_part(p, c, first, end);
    let all = a + seq![p] + b;
    if b.len() == 0 {
        assert(all.drop_last() == a);
        assert(all.last() == p);
        assert(a + b == a);
        assert(list_items(b, first, end) == Seq::<Item>::empty());
        assert(list_items(a, first, end) + list_items(b, first, end) == list_items(a, first, end));
    } else {
        let front = b.drop_last();
        law_foreign_parts_leave_no_trace(a, p, front, c, first, end);
        assert(all.drop_last() == a + seq![p] + front);
        assert(all.last() == b.last());
        assert((a + b).drop_last() == a + front);
        assert((a + b).last() == b.last());
        if let Some(more) = items_of(b.last(), first, end) {
            assert(list_items(a, first, end) + list_items(front, first, end) + more == list_items(
                a,
                first,
                end,
            ) + (list_items(front, first, end) + more));
        }
    }
}

/// A list of days of the week, of ranges and of steps of them is what each part is by itself,
/// with commas between.
pub proof fn law_day_list_is_its_parts(parts: Seq<Seq<char>>)
    requires
        parts.len() >= 2,
        forall|i: int|
            0 <= i < parts.len() ==> is_standard_day(#[trigger] parts[i]) && !has_char(
                parts[i],
                ',',
            ),
    ensures
        dow_text(joined(parts, seq![','])) == Ok::<Seq<char>, Seq<char>>(
            joined(parts.map_values(|p: Seq<char>| dow_text(p)->Ok_0), seq![',']),
        ),
{
    reveal_strlit(",");
    assert(","@ == seq![',']);
    let f = joined(parts, seq![',']);
    lemma_pieces_of_joined(parts, ',');
    lemma_joined_has_separator(parts, ',');
    assert(f != "*"@) by {
        reveal_strlit("*");
    }
    lemma_day_parts_join(parts);
}

proof fn lemma_day_alone(p: Seq<char>)
    requires
        is_standard_day(p),
        !has_char(p, ','),
    ensures
        day_items(p) matches Some(days) && days.len() > 0 && dow_text(p) == Ok::<
            Seq<char>,
            Seq<char>,
        >(joined(days, seq![','])),
{
    reveal_strlit(",");
    reveal_strlit("*");
    assert(","@ == seq![',']);
    lemma_standard_day(p);
    assert(p != "*"@) by {
        if p == "*"@ {
            reveal_strlit("*/");
            assert(!is_digit(p[0]));
            lemma_star();
            lemma_one_piece(p, '/');
            assert(!has_char(p, '-'));
        }
    }
}

proof fn lemma_day_parts_join(parts: Seq<Seq<char>>)
    requires
        parts.len() > 0,
        forall|i: int|
            0 <= i < parts.len() ==> is_standard_day(#[trigger] parts[i]) && !has_char(
                parts[i],
                ',',
            ),
    ensures
        list_days(parts) matches Ok(days) && days.len() > 0 && joined(days, seq![',']) == joined(
            parts.map_values(|p: Seq<char>| dow_text(p)->Ok_0),
            seq![','],
        ),
    decreases parts.len(),
{
    let sep = seq![','];
    let alone = parts.map_values(|p: Seq<char>| dow_text(p)->Ok_0);
    let last = parts.last();
    assert(is_standard_day(parts[parts.len() - 1]));
    lemma_day_alone(last);
    let more = day_items(last)->0;
    let front = parts.drop_last();
    if parts.len() == 1 {
        assert(list_days(front) == Ok::<Seq<Seq<char>>, Seq<char>>(Seq::empty()));
        assert(Seq::<Seq<char>>::empty() + more == more);
        assert(alone == seq![dow_text(last)->Ok_0]);
    } else {
        assert forall|i: int| 0 <= i < front.len() implies is_standard_day(#[trigger] front[i])
            && !has_char(front[i], ',') by {
            assert(is_standard_day(parts[i]));
        }
        lemma_day_parts_join(front);
        let rest = list_days(front)->Ok_0;
        law_joining_goes_on(rest, more, sep);
        assert(alone.drop_last() == front.map_values(|p: Seq<char>| dow_text(p)->Ok_0));
        assert(alone.last() == dow_text(last)->Ok_0);
    }
}

/// A number beyond the days of the week stays a number, and a range that goes beyond them stays
/// as it is.
pub proof fn law_days_beyond_the_week_stay(a: int, b: int)
    requires
        0 <= a <= u32::MAX,
        0 <= b <= u32::MAX,
    ensures
        a >= 7 ==> dow_text(decimal(a)) == Ok::<Seq<char>, Seq<char>>(decimal(a)),
        a >= 7 || b >= 7 ==> dow_text(decimal(a) + seq!['-'] + decimal(b)) == Ok::<
            Seq<char>,
            Seq<char>,
        >(decimal(a) + seq!['-'] + decimal(b)),
{
    reveal_strlit("*");
    reveal_strlit("-");
    assert("-"@ == seq!['-']);
    lemma_plain_number(a);
    lemma_item_reads_back(Item::Range(a, b), 0, 1);
    lemma_range_reads_back(a, b);
    let f = decimal(a) + seq!['-'] + decimal(b);
    lemma_one_piece(f, '/');
    if unsigned(f, usize::MAX as int) is Some {
        lemma_plain_number(b);
        lemma_two_pieces(decimal(a), decimal(b), '-');
        lemma_number_has_no(f, usize::MAX as int, '-');
    }
    assert(f[0] == decimal(a)[0]);
}

/// What a user is told of an expression that is refused.
pub proof fn law_refused_expressions_are_told(n: usize, said: Seq<char>)
    ensures
        CronFault::FieldCount(n).message() == "Invalid cron expression: expected 5 fields, got "@
            + decimal(n as int),
        CronFault::DayOfWeek(said).message() == said,
{
}

/// Whatever is made of an expression of five numbers, it is that minute of that hour on that day
/// of that month and of the week.
pub proof fn law_conversion_keeps_five_numbers(
    expr: &str,
    r: Result<String, CronError>,
    m: int,
    h: int,
    d: int,
    mo: int,
    w: int,
)
    requires
        0 <= m <= 59,
        0 <= h <= 23,
        1 <= d <= 31,
        1 <= mo <= 12,
        0 <= w <= 6,
        expr@ == five(decimal(m), decimal(h), decimal(d), decimal(mo), decimal(w)),
        call_ensures(cron_to_oncalendar, (expr,), r),
    ensures
        r matches Ok(t) && t@ == day_name(w) + seq![' ', '*', '-'] + padded(mo, 2) + seq!['-']
            + padded(d, 2) + seq![' '] + padded(h, 2) + seq![':'] + padded(m, 2),
{
    lemma_numbers_on_a_day(m, h, d, mo, w);
    lemma_conversion_result(expr, r);
}

proof fn lemma_conversion_result(expr: &str, r: Result<String, CronError>)
    requires
        call_ensures(cron_to_oncalendar, (expr,), r),
    ensures
        calendar_result(r) == calendar_of(expr@),
{
}

/// A numeral counts by its value, whatever zeros it starts with, as a number, as a step and at
/// either end of a range.
pub proof fn law_numerals_count_by_their_value(
    x: Seq<char>,
    y: Seq<char>,
    a: int,
    b: int,
    first: int,
    end: int,
    pad: int,
)
    requires
        unsigned(x, u32::MAX as int) == Some(a),
        unsigned(y, u32::MAX as int) == Some(b),
    ensures
        field_text(x, first, end, pad) == padded(a, pad),
        field_text(x + seq!['-'] + y, first, end, pad) == padded(a, pad) + seq!['.', '.'] + padded(
            b,
            pad,
        ),
        field_text(seq!['*', '/'] + x, first, end, pad) == joined(
            progression(first, a, end).map_values(|v: int| padded(v, pad)),
            seq![','],
        ),
{
    reveal_strlit("*");
    reveal_strlit("*/");
    reveal_strlit("..");
    reveal_strlit(",");
    assert("*/"@ == seq!['*', '/']);
    assert(".."@ == seq!['.', '.']);
    assert(","@ == seq![',']);
    let max = u32::MAX as int;
    lemma_numeral(x);
    lemma_numeral(y);
    lemma_one_piece(x, '/');
    let number = Item::Number(a);
    assert(starts_with(x, "*/"@) ==> x.take(2)[0] == x[0]);
    assert(items_of(x, first, end) == Some(seq![number]));
    assert(item_texts(seq![number], pad) == seq![padded(a, pad)]);
    lemma_numeral_range(x, y, a, b, first, end, pad);
    let f = seq!['*', '/'] + x;
    assert(f.take(2) == "*/"@);
    assert(f.skip(2) == x);
    lemma_neither_has_char(seq!['*', '/'], x, ',');
    assert(f.len() > 2);
    assert(item_texts(progression(first, a, end).map_values(|v: int| Item::Number(v)), pad)
        == progression(first, a, end).map_values(|v: int| padded(v, pad)));
}

proof fn lemma_numeral(x: Seq<char>)
    requires
        unsigned(x, u32::MAX as int) is Some,
    ensures
        x.len() > 0,
        x[0] != '*',
        !has_char(x, '/'),
        !has_char(x, '-'),
        !has_char(x, ','),
        !has_char(x, '*'),
{
    let max = u32::MAX as int;
    lemma_number_has_no(x, max, '/');
    lemma_number_has_no(x, max, '-');
    lemma_number_has_no(x, max, ',');
    lemma_number_has_no(x, max, '*');
}

proof fn lemma_numeral_range(
    x: Seq<char>,
    y: Seq<char>,
    a: int,
    b: int,
    first: int,
    end: int,
    pad: int,
)
    requires
        unsigned(x, u32::MAX as int) == Some(a),
        unsigned(y, u32::MAX as int) == Some(b),
    ensures
        field_text(x + seq!['-'] + y, first, end, pad) == padded(a, pad) + ".."@ + padded(b, pad),
{
    reveal_strlit("*");
    reveal_strlit("*/");
    lemma_numeral(x);
    lemma_numeral(y);
    let f = x + seq!['-'] + y;
    let item = Item::Range(a, b);
    lemma_two_pieces(x, y, '-');
    lemma_neither_has_char(x, seq!['-'], '/');
    lemma_neither_has_char(x + seq!['-'], y, '/');
    lemma_neither_has_char(x, seq!['-'], ',');
    lemma_neither_has_char(x + seq!['-'], y, ',');
    lemma_one_piece(f, '/');
    assert(f[0] == x[0]);
    assert(starts_with(f, "*/"@) ==> f.take(2)[0] == f[0]);
    assert(items_of(f, first, end) == Some(seq![item]));
    assert(item_texts(seq![item], pad) == seq![item.text(pad)]);
}

} // verus!
