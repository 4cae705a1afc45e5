use crate::card_text::{
    find_char, first_index, parse_int, parse_number, spells, to_chars, trim, trim_bounds,
};
use vstd::prelude::*;
use vstd::string::*;

verus! {

/// The cells that an effect aims at.
#[derive(Debug, Clone, Copy, PartialEq, Eq, Structural)]
pub enum Target {
    Vertical(i32),
    Horizontal(i32),
}

/// One effect of a card, as its text describes it.
#[derive(Debug, Clone, PartialEq)]
pub enum CardEffect {
    DealDamage(i32),
    Block(i32),
    DefineTarget(Target),
    Unimplemented(String),
}

/// A card effect as a mathematical value.
pub enum EffectView {
    DealDamage(i32),
    Block(i32),
    DefineTarget(Target),
    Unimplemented(Seq<char>),
}

impl View for CardEffect {
    type V = EffectView;

    open spec fn view(&self) -> EffectView {
        match self {
            CardEffect::DealDamage(amount) => EffectView::DealDamage(*amount),
            CardEffect::Block(amount) => EffectView::Block(*amount),
            CardEffect::DefineTarget(target) => EffectView::DefineTarget(*target),
            CardEffect::Unimplemented(name) => EffectView::Unimplemented(name@),
        }
    }
}

/// The views of `effects`, in order.
pub open spec fn views(effects: Seq<CardEffect>) -> Seq<EffectView> {
    effects.map_values(|effect: CardEffect| effect@)
}

/// The first of the comma-separated parameters `params`, without the
/// white space around it.
pub open spec fn first_param(params: Seq<char>) -> Seq<char> {
    trim(params.take(first_index(params, ',')))
}

/// The effect with keyword `keyword` and parameter `param`, for the
/// keywords that take a number.
pub open spec fn numbered_effect(keyword: Seq<char>, param: i32) -> EffectView {
    if keyword == "deal"@ {
        EffectView::DealDamage(param)
    } else if keyword == "block"@ {
        EffectView::Block(param)
    } else if keyword == "vertical"@ {
        EffectView::DefineTarget(Target::Vertical(param))
    } else {
        EffectView::DefineTarget(Target::Horizontal(param))
    }
}

/// `keyword` is one of the keywords that take a number.
pub open spec fn takes_number(keyword: Seq<char>) -> bool {
    keyword == "deal"@ || keyword == "block"@ || keyword == "vertical"@ || keyword
        == "horizontal"@
}

/// What the command `s` means. A command is a keyword, an opening bracket,
/// parameters separated by commas, and a closing bracket; what follows the
/// closing bracket is ignored, and so are all parameters but the first.
/// The brackets are the first of either kind in `s`. The error says what
/// was not understood: the whole command, its keyword, or its parameter.
pub open spec fn effect_of(s: Seq<char>) -> Result<EffectView, Seq<char>> {
    let open = first_index(s, '(');
    let close = first_index(s, ')');
    if open < s.len() && close < s.len() && open < close {
        let keyword = s.take(open);
        let param = parse_int(first_param(s.subrange(open + 1, close)));
        if takes_number(keyword) {
            match param {
                Some(number) => Ok(numbered_effect(keyword, number)),
                None => Err("Error extracting params from string: "@ + s),
            }
        } else if keyword == "target_bottom_rows"@ {
            Ok(EffectView::Unimplemented("TargetBottomRows"@))
        } else {
            Err("could not parse command: "@ + keyword)
        }
    } else {
        Err("Could not successfully parse string: "@ + s)
    }
}

/// `done`, followed by what `rest` holds; the error of `rest` where it is
/// one.
pub open spec fn prepend(done: Seq<EffectView>, rest: Result<Seq<EffectView>, Seq<char>>) -> Result<
    Seq<EffectView>,
    Seq<char>,
> {
    match rest {
        Ok(more) => Ok(done + more),
        Err(error) => Err(error),
    }
}

/// What the card text `text` means: the effects of its commands, in order.
/// Commands are separated by semicolons; white space around a command is
/// dropped, and so is a command that is then empty. The first command that
/// is not understood makes the whole text an error.
pub open spec fn effects_of(text: Seq<char>) -> Result<Seq<EffectView>, Seq<char>>
    decreases text.len(),
{
    let end = first_index(text, ';');
    let command = trim(text.take(end));
    let rest = if 0 <= end < text.len() {
        effects_of(text.skip(end + 1))
    } else {
        Ok(Seq::empty())
    };
    if command.len() == 0 {
        rest
    } else {
        match effect_of(command) {
            Ok(effect) => prepend(seq![effect], rest),
            Err(error) => Err(error),
        }
    }
}

/// The message for text that was not understood: `prefix`, then the part
/// of `chars` from `from` to `to`.
fn complaint(prefix: &str, text: &str, from: usize, to: usize) -> (message: String)
    requires
        from <= to <= text@.len(),
    ensures
        message@ == prefix@ + text@.subrange(from as int, to as int),
{
    String::from_str(prefix).concat(text.substring_char(from, to))
}

impl CardEffect {
    /// Reads one command of a card's text.
    pub fn from_string(val: String) -> (effect: Result<CardEffect, String>)
        ensures
            match effect {
                Ok(read) => effect_of(val@) == Ok::<EffectView, Seq<char>>(read@),
                Err(message) => effect_of(val@) == Err::<EffectView, Seq<char>>(message@),
            },
    {
        let text = val.as_str();
        let chars = to_chars(text);
        let n = chars.len();
        proof {
            assert(chars@.subrange(0, n as int) =~= val@);
        }
        let open = find_char(&chars, 0, n, '(');
        let close = find_char(&chars, 0, n, ')');
        if open < n && close < n && open < close {
            let comma = find_char(&chars, open + 1, close, ',');
            let (lo, hi) = trim_bounds(&chars, open + 1, comma);
            let param = parse_number(&chars, lo, hi);
            proof {
                let params = val@.subrange(open + 1, close as int);
                assert(params =~= chars@.subrange(open + 1, close as int));
                assert(params.take(comma - open - 1) =~= chars@.subrange(open + 1, comma as int));
                assert(val@.take(open as int) =~= chars@.subrange(0, open as int));
                assert(val@.subrange(0, n as int) =~= val@);
            }
            let is_deal = spells(&chars, 0, open, "deal");
            let is_block = spells(&chars, 0, open, "block");
            let is_vertical = spells(&chars, 0, open, "vertical");
            let is_horizontal = spells(&chars, 0, open, "horizontal");
            if is_deal || is_block || is_vertical || is_horizontal {
                match param {
                    Some(number) => {
                        if is_deal {
                            Ok(CardEffect::DealDamage(number))
                        } else if is_block {
                            Ok(CardEffect::Block(number))
                        } else if is_vertical {
                            Ok(CardEffect::DefineTarget(Target::Vertical(number)))
                        } else {
                            Ok(CardEffect::DefineTarget(Target::Horizontal(number)))
                        }
                    },
                    None => Err(complaint("Error extracting params from string: ", text, 0, n)),
                }
            } else if spells(&chars, 0, open, "target_bottom_rows") {
                Ok(CardEffect::Unimplemented(String::from_str("TargetBottomRows")))
            } else {
                Err(complaint("could not parse command: ", text, 0, open))
            }
        } else {
            proof {
                assert(val@.subrange(0, n as int) =~= val@);
            }
            Err(complaint("Could not successfully parse string: ", text, 0, n))
        }
    }
}

/// Reads a card's text: its commands, separated by semicolons.
pub fn get_card_effects_from_text(val: String) -> (effects: Result<Vec<CardEffect>, String>)
    ensures
        match effects {
            Ok(read) => effects_of(val@) == Ok::<Seq<EffectView>, Seq<char>>(views(read@)),
            Err(message) => effects_of(val@) == Err::<Seq<EffectView>, Seq<char>>(message@),
        },
{
    let text = val.as_str();
    let chars = to_chars(text);
    let n = chars.len();
    let mut effects: Vec<CardEffect> = Vec::new();
    let mut start: usize = 0;
    proof {
        assert(chars@.skip(0) =~= chars@);
        assert(views(effects@) =~= Seq::<EffectView>::empty());
        lemma_prepend_nothing(effects_of(chars@));
    }
    loop
        invariant
            start <= n,
            n == chars@.len(),
            chars@ == val@,
            text@ == val@,
            effects_of(val@) == prepend(views(effects@), effects_of(chars@.skip(start as int))),
        decreases n - start,
    {
        let ghost remaining = chars@.skip(start as int);
        let ghost done = views(effects@);
        let end = find_char(&chars, start, n, ';');
        let (lo, hi) = trim_bounds(&chars, start, end);
        proof {
            assert(remaining =~= chars@.subrange(start as int, n as int));
            assert(remaining.take(end - start) =~= chars@.subrange(start as int, end as int));
            if end < n {
                assert(remaining.skip(end - start + 1) =~= chars@.skip(end + 1));
            }
        }
        let ghost rest = if end < n {
            effects_of(chars@.skip(end + 1))
        } else {
            Ok(Seq::empty())
        };
        if lo < hi {
            let command = String::from_str(text.substring_char(lo, hi));
            match CardEffect::from_string(command) {
                Ok(effect) => {
                    effects.push(effect);
                    proof {
                        assert(views(effects@) =~= done.push(effect@));
                        lemma_prepend_one(done, effect@, rest);
                    }
                },
                Err(message) => {
                    return Err(message);
                },
            }
        }
        if end == n {
            proof {
                assert(views(effects@) + Seq::<EffectView>::empty() =~= views(effects@));
            }
            return Ok(effects);
        }
        start = end + 1;
    }
}

/// Prepending nothing changes nothing.
proof fn lemma_prepend_nothing(rest: Result<Seq<EffectView>, Seq<char>>)
    ensures
        prepend(Seq::empty(), rest) == rest,
{
    match rest {
        Ok(more) => {
            assert(Seq::<EffectView>::empty() + more =~= more);
        },
        Err(_) => {},
    }
}

/// Prepending `done` and then `effect` is prepending `done` with `effect`
/// at its end.
proof fn lemma_prepend_one(
    done: Seq<EffectView>,
    effect: EffectView,
    rest: Result<Seq<EffectView>, Seq<char>>,
)
    ensures
        prepend(done, prepend(seq![effect], rest)) == prepend(done.push(effect), rest),
{
    match rest {
        Ok(more) => {
            assert(done + (seq![effect] + more) =~= done.push(effect) + more);
        },
        Err(_) => {},
    }
}

/// A card as the card database describes it.
#[derive(Debug, Default, PartialEq)]
pub struct CardData {
    pub id: i32,
    pub name: String,
    pub cost: Option<i32>,
    pub effects: String,
}

impl CardData {
    /// The effects that the card's text describes.
    pub fn parse_effects(&self) -> (effects: Result<Vec<CardEffect>, String>)
        ensures
            match effects {
                Ok(read) => effects_of(self.effects@) == Ok::<Seq<EffectView>, Seq<char>>(
                    views(read@),
                ),
                Err(message) => effects_of(self.effects@) == Err::<Seq<EffectView>, Seq<char>>(
                    message@,
                ),
            },
    {
        get_card_effects_from_text(self.effects.clone())
    }
}

} // verus!
