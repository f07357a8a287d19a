//! The text that describes a search: how long it took, what it found, and
//! the cells of the path.

use vstd::prelude::*;
use crate::pos::Pos;
use crate::route::track;

verus! {

/// The character for a single decimal digit.
pub open spec fn digit(d: int) -> char {
    if d == 0 {
        '0'
    } else if d == 1 {
        '1'
    } else if d == 2 {
        '2'
    } else if d == 3 {
        '3'
    } else if d == 4 {
        '4'
    } else if d == 5 {
        '5'
    } else if d == 6 {
        '6'
    } else if d == 7 {
        '7'
    } else if d == 8 {
        '8'
    } else {
        '9'
    }
}

/// A number in decimal, without leading zeros.
pub open spec fn decimal(n: nat) -> Seq<char>
    decreases n,
{
    if n < 10 {
        seq![digit(n as int)]
    } else {
        decimal(n / 10).push(digit((n % 10) as int))
    }
}

/// The cells of a route, each as `x,y` followed by a space.
pub open spec fn steps_text(route: Seq<(int, int)>) -> Seq<char>
    decreases route.len(),
{
    if route.len() == 0 {
        Seq::empty()
    } else {
        steps_text(route.drop_last()) + decimal(route.last().0 as nat) + ","@ + decimal(
            route.last().1 as nat,
        ) + " "@
    }
}

/// The report on a search that took `micros` microseconds and found `route`
/// at the cost `distance`.
pub open spec fn report_text(
    micros: nat,
    route: Seq<(int, int)>,
    distance: nat,
    start: (int, int),
    goal: (int, int),
) -> Seq<char> {
    "time taken: "@ + decimal(micros) + "µs len: "@ + decimal(route.len()) + " distance: "@
        + decimal(distance) + " start: "@ + decimal(start.0 as nat) + ","@ + decimal(
        start.1 as nat,
    ) + " goal: "@ + decimal(goal.0 as nat) + ","@ + decimal(goal.1 as nat) + " Path: "@
        + steps_text(route)
}

/// The text of a single decimal digit.
fn digit_str(d: u8) -> (s: &'static str)
    requires
        d < 10,
    ensures
        s@ == seq![digit(d as int)],
{
    proof {
        reveal_strlit("0");
        reveal_strlit("1");
        reveal_strlit("2");
        reveal_strlit("3");
        reveal_strlit("4");
        reveal_strlit("5");
        reveal_strlit("6");
        reveal_strlit("7");
        reveal_strlit("8");
        reveal_strlit("9");
    }
    let s = match d {
        0 => "0",
        1 => "1",
        2 => "2",
        3 => "3",
        4 => "4",
        5 => "5",
        6 => "6",
        7 => "7",
        8 => "8",
        _ => "9",
    };
    assert(s@ =~= seq![digit(d as int)]);
    s
}

/// Appends `n` in decimal to `out`.
pub fn push_decimal(out: &mut String, n: u128)
    ensures
        final(out)@ == old(out)@ + decimal(n as nat),
    decreases n,
{
    if n >= 10 {
        push_decimal(out, n / 10);
    }
    out.append(digit_str((n % 10) as u8));
    assert(out@ =~= old(out)@ + decimal(n as nat));
}

/// Taking one more cell of a route adds the text of that cell.
proof fn lemma_steps_extend(route: Seq<(int, int)>, n: int)
    requires
        0 <= n < route.len(),
    ensures
        steps_text(route.take(n + 1)) == steps_text(route.take(n)) + decimal(route[n].0 as nat)
            + ","@ + decimal(route[n].1 as nat) + " "@,
{
    assert(route.take(n + 1).drop_last() =~= route.take(n));
}

/// The cells of `path`, each as `x,y` followed by a space.
pub fn path_text(path: &Vec<Pos>) -> (text: String)
    ensures
        text@ == steps_text(track(path@)),
{
    let mut text = String::new();
    let mut i: usize = 0;
    assert(track(path@).take(0) =~= Seq::empty());
    while i < path.len()
        invariant
            0 <= i <= path@.len(),
            text@ == steps_text(track(path@).take(i as int)),
        decreases path@.len() - i,
    {
        let step = path[i];
        proof {
            lemma_steps_extend(track(path@), i as int);
        }
        push_decimal(&mut text, step.0 as u128);
        text.append(",");
        push_decimal(&mut text, step.1 as u128);
        text.append(" ");
        i = i + 1;
    }
    assert(track(path@).take(i as int) =~= track(path@));
    text
}

/// Writes the report on a search that took `time_taken` microseconds and
/// found `path` at the cost `distance`.
pub fn format_report(
    time_taken: u128,
    path: &Vec<Pos>,
    distance: u128,
    start: &Pos,
    goal: &Pos,
) -> (text: String)
    ensures
        text@ == report_text(time_taken as nat, track(path@), distance as nat, start@, goal@),
{
    let steps = path_text(path);
    let mut text = String::new();
    text.append("time taken: ");
    push_decimal(&mut text, time_taken);
    text.append("µs len: ");
    push_decimal(&mut text, path.len() as u128);
    text.append(" distance: ");
    push_decimal(&mut text, distance);
    text.append(" start: ");
    push_decimal(&mut text, start.0 as u128);
    text.append(",");
    push_decimal(&mut text, start.1 as u128);
    text.append(" goal: ");
    push_decimal(&mut text, goal.0 as u128);
    text.append(",");
    push_decimal(&mut text, goal.1 as u128);
    text.append(" Path: ");
    text.append(steps.as_str());
    assert(text@ =~= report_text(
        time_taken as nat,
        track(path@),
        distance as nat,
        start@,
        goal@,
    ));
    text
}

} // verus!
