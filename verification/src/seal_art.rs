//! The seal drawn in the sidebar: its eyes, mouth, whiskers and flippers, the sign over
//! its head, the water under it, and its breathing (whether it is breathing in is worked
//! out by the caller from the animation clock).
use vstd::prelude::*;
use crate::styled::{cat, copy};
use crate::text::{chars_string, str_chars, str_views};

verus! {

/// The eyes for a pose.
pub open spec fn eyes_spec(e: Seq<char>) -> (char, char) {
    if e == "open"@ {
        ('●', '●')
    } else if e == "half"@ {
        ('◑', '◑')
    } else if e == "closed"@ {
        ('─', '─')
    } else if e == "wide"@ {
        ('◎', '◎')
    } else if e == "focused"@ {
        ('◉', '◉')
    } else if e == "stressed"@ {
        ('×', '×')
    } else if e == "wink"@ {
        ('─', '●')
    } else {
        ('●', '●')
    }
}

/// The mouth for a pose.
pub open spec fn mouth_spec(m: Seq<char>) -> char {
    if m == "smile"@ {
        '◡'
    } else if m == "neutral"@ {
        '─'
    } else if m == "frown"@ {
        '∩'
    } else if m == "open"@ {
        '○'
    } else if m == "relaxed"@ {
        'ω'
    } else if m == "smirk"@ {
        '⌐'
    } else if m == "o"@ {
        '◯'
    } else {
        '◡'
    }
}

/// The whiskers for a pose.
pub open spec fn whiskers_spec(w: Seq<char>) -> (Seq<char>, Seq<char>) {
    if w == "perked"@ {
        ("⟋⟋⟋"@, "⟍⟍⟍"@)
    } else if w == "droopy"@ {
        ("───"@, "───"@)
    } else if w == "spread"@ {
        ("⟋─⟋"@, "⟍─⟍"@)
    } else {
        ("═══"@, "═══"@)
    }
}

/// The sign over the seal's head at animation tick `tick`.
pub open spec fn indicator_spec(i: Seq<char>, tick: u64) -> Seq<char> {
    if i == "zzz"@ {
        if tick % 6 < 2 {
            "  z"@
        } else if tick % 6 < 4 {
            " z "@
        } else {
            "z  "@
        }
    } else if i == "alert"@ {
        if tick % 4 < 2 {
            " !"@
        } else {
            "!!"@
        }
    } else if i == "thought"@ {
        if tick % 8 < 3 {
            " ."@
        } else if tick % 8 < 6 {
            ".o"@
        } else {
            " O"@
        }
    } else if i == "bubbles"@ {
        if tick % 6 < 2 {
            " °"@
        } else if tick % 6 < 4 {
            "° "@
        } else {
            " ○"@
        }
    } else if i == "music"@ {
        if tick % 4 < 2 {
            " ♪"@
        } else {
            "♫ "@
        }
    } else if i == "heart"@ {
        "♥ "@
    } else {
        "  "@
    }
}

/// The water line at animation tick `tick`.
pub open spec fn water_spec(tick: u64) -> Seq<char> {
    let k = tick % 8;
    if k == 0 {
        "~~~~~~~~~~~~~~~~~~~~~~"@
    } else if k == 1 {
        "~~~~~≈~~~~~~~~~~~~~~~~"@
    } else if k == 2 {
        "~~~~≈~~≈~~~~~~~~~~~~~~"@
    } else if k == 3 {
        "~~~≈~~~~≈~~~~~~~~~~~~~"@
    } else if k == 4 {
        "~~≈~~~~~~≈~~~~~~~~~~~~"@
    } else if k == 5 {
        "~≈~~~~~~~~≈~~~~~~~~~~~"@
    } else if k == 6 {
        "≈~~~~~~~~~~≈~~~~~~~~~~"@
    } else {
        "~~~~~~~~~~~~≈~~~~~~~~~"@
    }
}

/// The flippers at animation tick `tick`.
pub open spec fn flippers_spec(tick: u64) -> (Seq<char>, Seq<char>) {
    if tick % 12 < 4 {
        ("⠿⠤"@, "⠤⠿"@)
    } else if tick % 12 < 8 {
        ("⠿⠄"@, "⠠⠿"@)
    } else {
        ("⠿⡀"@, "⢀⠿"@)
    }
}

/// The seal for a pose at animation tick `tick`: eight lines of body (fuller while
/// breathing in), blinking every forty ticks, then the water and the label.
pub open spec fn seal_art(eyes: Seq<char>, mouth_name: Seq<char>, whiskers: Seq<char>, indicator: Seq<char>, label: Seq<char>, inhale: bool, tick: u64) -> Seq<Seq<char>> {
    let (le, re) = if tick % 40 < 2 {
        ('─', '─')
    } else {
        eyes_spec(eyes)
    };
    let mouth = mouth_spec(mouth_name);
    let (wl, wr) = whiskers_spec(whiskers);
    let ind = indicator_spec(indicator, tick);
    let (fl, fr) = flippers_spec(tick);
    (if inhale {
        seq![
            "     ⣀⣤⣴⣶⣶⣴⣤⣀     "@ + ind,
            "   ⣴⣿⣿⣿⣿⣿⣿⣿⣿⣦   "@,
            "  ⣿⣿ "@ + seq![le] + "    "@ + seq![re] + " ⣿⣿  "@,
            wl + " ⣿⣿⣿ ▼ ⣿⣿⣿ "@ + wr,
            "   ⣿⣿⣿⣿"@ + seq![mouth] + "⣿⣿⣿⣿   "@,
            "    ⠹⣿⣿⣿⣿⣿⣿⠏    "@,
            " "@ + fl + "⣤⣿⣿⣿⣿⣿⣿⣤"@ + fr + " "@,
            "    ⠘⣿⣿⣿⣿⣿⣿⠃    "@,
        ]
    } else {
        seq![
            "      ⣀⣤⣤⣤⣤⣀      "@ + ind,
            "    ⣴⣿⣿⣿⣿⣿⣿⣦    "@,
            "   ⣿⣿ "@ + seq![le] + "   "@ + seq![re] + " ⣿⣿   "@,
            wl + " ⣿⣿⣿ ▼ ⣿⣿⣿ "@ + wr,
            "    ⣿⣿⣿"@ + seq![mouth] + "⣿⣿⣿    "@,
            "     ⠹⣿⣿⣿⣿⠏     "@,
            " "@ + fl + "⣤⣿⣿⣿⣿⣿⣤"@ + fr + " "@,
            "    ⠘⣿⣿⣿⣿⣿⠃     "@,
        ]
    }) + seq![water_spec(tick), "  "@ + label + "  "@]
}

fn eyes_exec(e: &str) -> (r: (char, char))
    ensures
        r == eyes_spec(e@),
{
    let c = str_chars(e);
    if crate::text::chars_eq(&c, &str_chars("open")) {
        ('●', '●')
    } else if crate::text::chars_eq(&c, &str_chars("half")) {
        ('◑', '◑')
    } else if crate::text::chars_eq(&c, &str_chars("closed")) {
        ('─', '─')
    } else if crate::text::chars_eq(&c, &str_chars("wide")) {
        ('◎', '◎')
    } else if crate::text::chars_eq(&c, &str_chars("focused")) {
        ('◉', '◉')
    } else if crate::text::chars_eq(&c, &str_chars("stressed")) {
        ('×', '×')
    } else if crate::text::chars_eq(&c, &str_chars("wink")) {
        ('─', '●')
    } else {
        ('●', '●')
    }
}

fn mouth_exec(m: &str) -> (r: char)
    ensures
        r == mouth_spec(m@),
{
    let c = str_chars(m);
    if crate::text::chars_eq(&c, &str_chars("smile")) {
        '◡'
    } else if crate::text::chars_eq(&c, &str_chars("neutral")) {
        '─'
    } else if crate::text::chars_eq(&c, &str_chars("frown")) {
        '∩'
    } else if crate::text::chars_eq(&c, &str_chars("open")) {
        '○'
    } else if crate::text::chars_eq(&c, &str_chars("relaxed")) {
        'ω'
    } else if crate::text::chars_eq(&c, &str_chars("smirk")) {
        '⌐'
    } else if crate::text::chars_eq(&c, &str_chars("o")) {
        '◯'
    } else {
        '◡'
    }
}

fn whiskers_exec(w: &str) -> (r: (Vec<char>, Vec<char>))
    ensures
        (r.0@, r.1@) == whiskers_spec(w@),
{
    let c = str_chars(w);
    if crate::text::chars_eq(&c, &str_chars("perked")) {
        (str_chars("⟋⟋⟋"), str_chars("⟍⟍⟍"))
    } else if crate::text::chars_eq(&c, &str_chars("droopy")) {
        (str_chars("───"), str_chars("───"))
    } else if crate::text::chars_eq(&c, &str_chars("spread")) {
        (str_chars("⟋─⟋"), str_chars("⟍─⟍"))
    } else {
        (str_chars("═══"), str_chars("═══"))
    }
}

fn indicator_exec(i: &str, tick: u64) -> (r: Vec<char>)
    ensures
        r@ == indicator_spec(i@, tick),
{
    let c = str_chars(i);
    if crate::text::chars_eq(&c, &str_chars("zzz")) {
        if tick % 6 < 2 {
            str_chars("  z")
        } else if tick % 6 < 4 {
            str_chars(" z ")
        } else {
            str_chars("z  ")
        }
    } else if crate::text::chars_eq(&c, &str_chars("alert")) {
        if tick % 4 < 2 {
            str_chars(" !")
        } else {
            str_chars("!!")
        }
    } else if crate::text::chars_eq(&c, &str_chars("thought")) {
        if tick % 8 < 3 {
            str_chars(" .")
        } else if tick % 8 < 6 {
            str_chars(".o")
        } else {
            str_chars(" O")
        }
    } else if crate::text::chars_eq(&c, &str_chars("bubbles")) {
        if tick % 6 < 2 {
            str_chars(" °")
        } else if tick % 6 < 4 {
            str_chars("° ")
        } else {
            str_chars(" ○")
        }
    } else if crate::text::chars_eq(&c, &str_chars("music")) {
        if tick % 4 < 2 {
            str_chars(" ♪")
        } else {
            str_chars("♫ ")
        }
    } else if crate::text::chars_eq(&c, &str_chars("heart")) {
        str_chars("♥ ")
    } else {
        str_chars("  ")
    }
}

fn water_exec(tick: u64) -> (r: Vec<char>)
    ensures
        r@ == water_spec(tick),
{
    let k = tick % 8;
    if k == 0 {
        str_chars("~~~~~~~~~~~~~~~~~~~~~~")
    } else if k == 1 {
        str_chars("~~~~~≈~~~~~~~~~~~~~~~~")
    } else if k == 2 {
        str_chars("~~~~≈~~≈~~~~~~~~~~~~~~")
    } else if k == 3 {
        str_chars("~~~≈~~~~≈~~~~~~~~~~~~~")
    } else if k == 4 {
        str_chars("~~≈~~~~~~≈~~~~~~~~~~~~")
    } else if k == 5 {
        str_chars("~≈~~~~~~~~≈~~~~~~~~~~~")
    } else if k == 6 {
        str_chars("≈~~~~~~~~~~≈~~~~~~~~~~")
    } else {
        str_chars("~~~~~~~~~~~~≈~~~~~~~~~")
    }
}

fn flippers_exec(tick: u64) -> (r: (Vec<char>, Vec<char>))
    ensures
        (r.0@, r.1@) == flippers_spec(tick),
{
    if tick % 12 < 4 {
        (str_chars("⠿⠤"), str_chars("⠤⠿"))
    } else if tick % 12 < 8 {
        (str_chars("⠿⠄"), str_chars("⠠⠿"))
    } else {
        (str_chars("⠿⡀"), str_chars("⢀⠿"))
    }
}

fn one(c: char) -> (r: Vec<char>)
    ensures
        r@ == seq![c],
{
    let r = vec![c];
    assert(r@ =~= seq![c]);
    r
}

fn push_line(lines: &mut Vec<String>, l: Vec<char>)
    ensures
        str_views(final(lines)@) == str_views(old(lines)@).push(l@),
{
    let s = chars_string(&l);
    proof {
        crate::text::lemma_str_views_push(lines@, s);
    }
    lines.push(s);
}

/// The seal's lines for a pose at animation tick `tick`.
pub fn render_seal(eyes: &str, mouth_name: &str, whiskers: &str, indicator: &str, label: &str, inhale: bool, tick: u64) -> (r: Vec<String>)
    ensures
        str_views(r@) == seal_art(eyes@, mouth_name@, whiskers@, indicator@, label@, inhale, tick),
{
    let (le, re) = if tick % 40 < 2 { ('─', '─') } else { eyes_exec(eyes) };
    let mouth = mouth_exec(mouth_name);
    let (wl, wr) = whiskers_exec(whiskers);
    let ind = indicator_exec(indicator, tick);
    let (fl, fr) = flippers_exec(tick);
    let mut lines: Vec<String> = Vec::new();
    if inhale {
        push_line(&mut lines, cat(&str_chars("     ⣀⣤⣴⣶⣶⣴⣤⣀     "), &ind));
        push_line(&mut lines, str_chars("   ⣴⣿⣿⣿⣿⣿⣿⣿⣿⣦   "));
        push_line(&mut lines, cat(&cat(&cat(&cat(&str_chars("  ⣿⣿ "), &one(le)), &str_chars("    ")), &one(re)), &str_chars(" ⣿⣿  ")));
        push_line(&mut lines, cat(&cat(&wl, &str_chars(" ⣿⣿⣿ ▼ ⣿⣿⣿ ")), &wr));
        push_line(&mut lines, cat(&cat(&str_chars("   ⣿⣿⣿⣿"), &one(mouth)), &str_chars("⣿⣿⣿⣿   ")));
        push_line(&mut lines, str_chars("    ⠹⣿⣿⣿⣿⣿⣿⠏    "));
        push_line(&mut lines, cat(&cat(&cat(&cat(&str_chars(" "), &fl), &str_chars("⣤⣿⣿⣿⣿⣿⣿⣤")), &fr), &str_chars(" ")));
        push_line(&mut lines, str_chars("    ⠘⣿⣿⣿⣿⣿⣿⠃    "));
    } else {
        push_line(&mut lines, cat(&str_chars("      ⣀⣤⣤⣤⣤⣀      "), &ind));
        push_line(&mut lines, str_chars("    ⣴⣿⣿⣿⣿⣿⣿⣦    "));
        push_line(&mut lines, cat(&cat(&cat(&cat(&str_chars("   ⣿⣿ "), &one(le)), &str_chars("   ")), &one(re)), &str_chars(" ⣿⣿   ")));
        push_line(&mut lines, cat(&cat(&wl, &str_chars(" ⣿⣿⣿ ▼ ⣿⣿⣿ ")), &wr));
        push_line(&mut lines, cat(&cat(&str_chars("    ⣿⣿⣿"), &one(mouth)), &str_chars("⣿⣿⣿    ")));
        push_line(&mut lines, str_chars("     ⠹⣿⣿⣿⣿⠏     "));
        push_line(&mut lines, cat(&cat(&cat(&cat(&str_chars(" "), &fl), &str_chars("⣤⣿⣿⣿⣿⣿⣤")), &fr), &str_chars(" ")));
        push_line(&mut lines, str_chars("    ⠘⣿⣿⣿⣿⣿⠃     "));
    }
    push_line(&mut lines, water_exec(tick));
    push_line(&mut lines, cat(&cat(&str_chars("  "), &str_chars(label)), &str_chars("  ")));
    assert(str_views(lines@) =~= seal_art(eyes@, mouth_name@, whiskers@, indicator@, label@, inhale, tick));
    lines
}

} // verus!
