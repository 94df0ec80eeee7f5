//! Scam wording: the text in an image, scored against known phrases.
use vstd::prelude::*;

use crate::config::{OcrConfig, OcrRule, DEFAULT_SCORE_THRESHOLD};
use crate::hashstore::{ImageFault, MAX_DECODE_BYTES};
use crate::images;
use crate::images::{decoded_pixels, fitted_pixels, pixels_size, rgb_png};
use crate::text::{chars_of, contains, contains_text, string_of, texts};
use crate::unicode::{
    char_to_lowercase, from_utf8_lossy, is_alphanumeric, is_alphanumeric_char, lossy_text,
    lowercase_of,
};

verus! {

/// Images that are smaller either way (emoji, stickers, avatars) are not read.
pub const MIN_DIMENSION: u32 = 64;

/// The Latin letter that a Cyrillic one looks like, or the character itself.
pub open spec fn folded(c: char) -> char {
    if c == 'а' {
        'a'
    } else if c == 'в' {
        'b'
    } else if c == 'е' || c == 'ё' {
        'e'
    } else if c == 'к' {
        'k'
    } else if c == 'м' {
        'm'
    } else if c == 'н' {
        'h'
    } else if c == 'о' {
        'o'
    } else if c == 'р' {
        'p'
    } else if c == 'с' {
        'c'
    } else if c == 'т' {
        't'
    } else if c == 'у' {
        'y'
    } else if c == 'х' {
        'x'
    } else if c == 'і' {
        'i'
    } else {
        c
    }
}

/// The Latin letter that a Cyrillic one looks like, or the character itself.
pub fn fold(c: char) -> (r: char)
    ensures
        r == folded(c),
{
    match c {
        'а' => 'a',
        'в' => 'b',
        'е' | 'ё' => 'e',
        'к' => 'k',
        'м' => 'm',
        'н' => 'h',
        'о' => 'o',
        'р' => 'p',
        'с' => 'c',
        'т' => 't',
        'у' => 'y',
        'х' => 'x',
        'і' => 'i',
        other => other,
    }
}

/// The characters of a text in lower case, one after the other.
pub open spec fn lowercase_chars(s: Seq<char>) -> Seq<char>
    decreases s.len(),
{
    if s.len() == 0 {
        Seq::empty()
    } else {
        lowercase_chars(s.drop_last()) + lowercase_of(s.last())
    }
}

/// A list of characters with each letter folded, and with one space for each run
/// of other characters but those at the start.
pub open spec fn spaced(chars: Seq<char>) -> Seq<char>
    decreases chars.len(),
{
    if chars.len() == 0 {
        Seq::empty()
    } else {
        let init = spaced(chars.drop_last());
        let c = folded(chars.last());
        if is_alphanumeric_char(c) {
            init.push(c)
        } else if init.len() > 0 && init.last() != ' ' {
            init.push(' ')
        } else {
            init
        }
    }
}

/// A text without the space at its end.
pub open spec fn without_last_space(s: Seq<char>) -> Seq<char> {
    if s.len() > 0 && s.last() == ' ' {
        s.drop_last()
    } else {
        s
    }
}

/// The words of characters in lower case: look-alikes folded, one space between
/// each two.
pub open spec fn separated(chars: Seq<char>) -> Seq<char> {
    without_last_space(spaced(chars))
}

/// The words of a text: lower case, look-alikes folded, one space between each two.
pub open spec fn words(s: Seq<char>) -> Seq<char> {
    separated(lowercase_chars(s))
}

fn lower(s: &str) -> (r: Vec<char>)
    ensures
        r@ == lowercase_chars(s@),
{
    let chars = chars_of(s);
    let mut out: Vec<char> = Vec::new();
    for i in 0..chars.len()
        invariant
            chars@ == s@,
            out@ == lowercase_chars(s@.take(i as int)),
    {
        assert(s@.take(i + 1).drop_last() =~= s@.take(i as int));
        let low = char_to_lowercase(chars[i]);
        let ghost before = out@;
        out.extend_from_slice(low.as_slice());
        assert(out@ =~= before + low@);
    }
    assert(s@.take(s@.len() as int) =~= s@);
    out
}

/// Makes words of characters in lower case: look-alikes are folded, and what is
/// no letter or digit separates.
pub fn separate_words(chars: &[char]) -> (r: String)
    ensures
        r@ == separated(chars@),
{
    let mut out: Vec<char> = Vec::new();
    let mut last_space: bool = true;
    for i in 0..chars.len()
        invariant
            out@ == spaced(chars@.take(i as int)),
            last_space == (out@.len() == 0 || out@.last() == ' '),
    {
        assert(chars@.take(i + 1).drop_last() =~= chars@.take(i as int));
        let c = fold(chars[i]);
        if is_alphanumeric(c) {
            out.push(c);
            last_space = false;
        } else if !last_space {
            out.push(' ');
            last_space = true;
        }
    }
    assert(chars@.take(chars@.len() as int) =~= chars@);
    if out.len() > 0 && out[out.len() - 1] == ' ' {
        out.pop();
    }
    string_of(out.as_slice())
}

/// The words of a text: lower case, Cyrillic letters that look like Latin ones
/// folded onto them, one space between each two.
///
/// Text recognition in two scripts mixes look-alikes into Latin words. Folding
/// the text and the phrases alike makes the comparison immune to that.
pub fn normalize(s: &str) -> (r: String)
    ensures
        r@ == words(s@),
{
    let chars = lower(s);
    separate_words(chars.as_slice())
}

/// A phrase to look for.
#[derive(Debug)]
pub struct NormalizedRule {
    /// As it was written, for the detection log.
    pub label: String,
    pub normalized: String,
    pub weight: u32,
}

/// What a rule says: how it was written, its words, and its weight.
#[verifier::ext_equal]
pub struct Phrase {
    pub label: Seq<char>,
    pub words: Seq<char>,
    pub weight: u32,
}

impl View for NormalizedRule {
    type V = Phrase;

    open spec fn view(&self) -> Phrase {
        Phrase { label: self.label@, words: self.normalized@, weight: self.weight }
    }
}

/// What each of a list of rules says.
pub open spec fn phrases(rules: Seq<NormalizedRule>) -> Seq<Phrase> {
    rules.map_values(|r: NormalizedRule| r@)
}

/// A phrase and its weight, as configured.
pub open spec fn rule_view(rule: OcrRule) -> (Seq<char>, u32) {
    (rule.pattern@, rule.weight)
}

/// Phrases and their weights, as configured.
pub open spec fn rule_views(rules: Seq<OcrRule>) -> Seq<(Seq<char>, u32)> {
    rules.map_values(|r: OcrRule| rule_view(r))
}

/// The configured phrases that have words, with their words.
pub open spec fn compiled_rules(rules: Seq<(Seq<char>, u32)>) -> Seq<Phrase>
    decreases rules.len(),
{
    if rules.len() == 0 {
        Seq::empty()
    } else {
        let init = compiled_rules(rules.drop_last());
        let (pattern, weight) = rules.last();
        if words(pattern).len() > 0 {
            init.push(Phrase { label: pattern, words: words(pattern), weight })
        } else {
            init
        }
    }
}

/// The weights of the phrases that occur in a text, added up.
pub open spec fn weight_found(rules: Seq<Phrase>, haystack: Seq<char>) -> nat
    decreases rules.len(),
{
    if rules.len() == 0 {
        0
    } else {
        weight_found(rules.drop_last(), haystack) + if contains_text(
            haystack,
            rules.last().words,
        ) {
            rules.last().weight as nat
        } else {
            0
        }
    }
}

/// The phrases that occur in a text, as they were written.
pub open spec fn labels_found(rules: Seq<Phrase>, haystack: Seq<char>) -> Seq<Seq<char>>
    decreases rules.len(),
{
    if rules.len() == 0 {
        Seq::empty()
    } else {
        let init = labels_found(rules.drop_last(), haystack);
        if contains_text(haystack, rules.last().words) {
            init.push(rules.last().label)
        } else {
            init
        }
    }
}

/// What phrases are looked for in: the words of a text, with a space at each end.
pub open spec fn haystack(text: Seq<char>) -> Seq<char> {
    seq![' '] + words(text) + seq![' ']
}

/// The phrases found in a text, and their weights added up.
#[derive(Debug, PartialEq)]
pub struct OcrMatch {
    pub score: u32,
    pub matched: Vec<String>,
}

/// Scores the text in images. The text itself is read by the `tesseract` program.
#[derive(Debug)]
pub struct OcrScanner {
    tesseract_path: String,
    languages: String,
    timeout_seconds: u64,
    max_dimension: u32,
    score_threshold: u32,
    max_concurrent: usize,
    rules: Vec<NormalizedRule>,
}

impl View for OcrScanner {
    type V = Seq<Phrase>;

    closed spec fn view(&self) -> Seq<Phrase> {
        phrases(self.rules@)
    }
}

/// The larger of a number and its least allowed value.
pub open spec fn at_least(n: int, least: int) -> int {
    if n < least {
        least
    } else {
        n
    }
}

impl OcrScanner {
    pub closed spec fn threshold(&self) -> u32 {
        self.score_threshold
    }

    pub closed spec fn dimension_limit(&self) -> u32 {
        self.max_dimension
    }

    pub closed spec fn time_limit(&self) -> u64 {
        self.timeout_seconds
    }

    pub closed spec fn run_limit(&self) -> usize {
        self.max_concurrent
    }

    pub closed spec fn program(&self) -> Seq<char> {
        self.tesseract_path@
    }

    pub closed spec fn language_list(&self) -> Seq<char> {
        self.languages@
    }

    /// The scanner was made for these settings and these phrases.
    pub open spec fn made_for(&self, cfg: OcrConfig, rules: Seq<(Seq<char>, u32)>) -> bool {
        &&& self@ == compiled_rules(rules)
        &&& self.threshold() == cfg.score_threshold
        &&& self.dimension_limit() == at_least(cfg.max_dimension as int, MIN_DIMENSION as int)
        &&& self.time_limit() == at_least(cfg.timeout_seconds as int, 1)
        &&& self.run_limit() == at_least(cfg.max_concurrent as int, 1)
        &&& self.program() == cfg.tesseract_path@
        &&& self.language_list() == cfg.languages@
    }

    /// A scanner for these settings, or `None` where it is turned off or where the
    /// program that reads text cannot be run. With no phrases of its own it looks
    /// for the built-in ones.
    pub fn new(cfg: &OcrConfig, tesseract_runs: bool) -> (r: Option<OcrScanner>)
        ensures
            match r {
                Some(scanner) => cfg.enabled && tesseract_runs && scanner.made_for(
                    *cfg,
                    if cfg.rules@.len() == 0 {
                        builtin_rules()
                    } else {
                        rule_views(cfg.rules@)
                    },
                ),
                None => !cfg.enabled || !tesseract_runs,
            },
    {
        if !cfg.enabled || !tesseract_runs {
            return None;
        }
        if cfg.rules.len() == 0 {
            let rules = default_rules();
            Some(OcrScanner::with_rules(cfg, rules.as_slice()))
        } else {
            Some(OcrScanner::with_rules(cfg, cfg.rules.as_slice()))
        }
    }

    /// A scanner for these settings and these phrases.
    pub fn with_rules(cfg: &OcrConfig, rules: &[OcrRule]) -> (r: OcrScanner)
        ensures
            r.made_for(*cfg, rule_views(rules@)),
    {
        let ghost all = rule_views(rules@);
        let mut compiled: Vec<NormalizedRule> = Vec::new();
        assert(phrases(compiled@) =~= compiled_rules(all.take(0)));
        for i in 0..rules.len()
            invariant
                all == rule_views(rules@),
                phrases(compiled@) == compiled_rules(all.take(i as int)),
        {
            assert(all.take(i + 1).drop_last() =~= all.take(i as int));
            assert(all.take(i + 1).last() == rule_view(rules@[i as int]));
            let normalized = normalize(rules[i].pattern.as_str());
            let ghost before = phrases(compiled@);
            if !normalized.as_str().is_empty() {
                let rule = NormalizedRule {
                    label: rules[i].pattern.clone(),
                    normalized,
                    weight: rules[i].weight,
                };
                compiled.push(rule);
                assert(phrases(compiled@) =~= before.push(rule@));
            }
        }
        assert(all.take(all.len() as int) =~= all);
        OcrScanner {
            tesseract_path: cfg.tesseract_path.clone(),
            languages: cfg.languages.clone(),
            timeout_seconds: if cfg.timeout_seconds < 1 { 1 } else { cfg.timeout_seconds },
            max_dimension: if cfg.max_dimension < MIN_DIMENSION {
                MIN_DIMENSION
            } else {
                cfg.max_dimension
            },
            score_threshold: cfg.score_threshold,
            max_concurrent: if cfg.max_concurrent < 1 { 1 } else { cfg.max_concurrent },
            rules: compiled,
        }
    }

    /// The number of phrases that are looked for.
    pub fn rule_count(&self) -> (r: usize)
        ensures
            r == self@.len(),
    {
        self.rules.len()
    }

    /// How long one image may be read, in seconds.
    pub fn timeout_seconds(&self) -> (r: u64)
        ensures
            r == self.time_limit(),
    {
        self.timeout_seconds
    }

    /// How many images may be read at once.
    pub fn max_concurrent(&self) -> (r: usize)
        ensures
            r == self.run_limit(),
    {
        self.max_concurrent
    }

    /// The larger side that an image is scaled down to.
    pub fn max_dimension(&self) -> (r: u32)
        ensures
            r == self.dimension_limit(),
    {
        self.max_dimension
    }

    /// The program that reads text.
    pub fn tesseract_path(&self) -> (r: &str)
        ensures
            r@ == self.program(),
    {
        self.tesseract_path.as_str()
    }

    /// What the program is started with: it reads an image from its standard input
    /// and writes the text to its standard output.
    pub fn tesseract_args(&self) -> (r: Vec<String>)
        ensures
            texts(r@) == seq!["stdin"@, "stdout"@, "-l"@, self.language_list()],
    {
        let mut args: Vec<String> = Vec::new();
        args.push("stdin".to_owned());
        args.push("stdout".to_owned());
        args.push("-l".to_owned());
        args.push(self.languages.clone());
        assert(texts(args@) =~= seq!["stdin"@, "stdout"@, "-l"@, self.language_list()]);
        args
    }

    /// The weights of the phrases that occur in words, added up.
    fn weigh(&self, haystack: &str) -> (r: u128)
        ensures
            r == weight_found(self@, haystack@),
    {
        let mut total: u128 = 0;
        for i in 0..self.rules.len()
            invariant
                total == weight_found(self@.take(i as int), haystack@),
                total <= i * u32::MAX,
        {
            assert(self@.take(i + 1).drop_last() =~= self@.take(i as int));
            assert(self@.take(i + 1).last() == self.rules@[i as int]@);
            assert(i * u32::MAX + u32::MAX == (i + 1) * u32::MAX) by (nonlinear_arith);
            assert(i * u32::MAX <= usize::MAX * u32::MAX) by (nonlinear_arith)
                requires
                    i <= usize::MAX,
            ;
            if contains(haystack, self.rules[i].normalized.as_str()) {
                total = total + self.rules[i].weight as u128;
            }
        }
        assert(self@.take(self@.len() as int) =~= self@);
        total
    }

    /// The phrases that occur in words, with their weights added up. Each counts
    /// once, however often it occurs.
    pub fn score_words(&self, haystack: &str) -> (r: OcrMatch)
        requires
            weight_found(self@, haystack@) <= u32::MAX,
        ensures
            r.score == weight_found(self@, haystack@),
            texts(r.matched@) == labels_found(self@, haystack@),
    {
        let mut matched: Vec<String> = Vec::new();
        assert(texts(matched@) =~= labels_found(self@.take(0), haystack@));
        for i in 0..self.rules.len()
            invariant
                texts(matched@) == labels_found(self@.take(i as int), haystack@),
        {
            assert(self@.take(i + 1).drop_last() =~= self@.take(i as int));
            assert(self@.take(i + 1).last() == self.rules@[i as int]@);
            let ghost before = texts(matched@);
            if contains(haystack, self.rules[i].normalized.as_str()) {
                matched.push(self.rules[i].label.clone());
                assert(texts(matched@) =~= before.push(self.rules@[i as int]@.label));
            }
        }
        assert(self@.take(self@.len() as int) =~= self@);
        OcrMatch { score: self.weigh(haystack) as u32, matched }
    }

    /// Scores a text.
    pub fn score(&self, text: &str) -> (r: OcrMatch)
        requires
            weight_found(self@, haystack(text@)) <= u32::MAX,
        ensures
            r.score == weight_found(self@, haystack(text@)),
            texts(r.matched@) == labels_found(self@, haystack(text@)),
    {
        let padded = pad(text);
        self.score_words(padded.as_str())
    }

    /// Scores a text, where the score can be held: `None` where it is above
    /// `u32::MAX`.
    pub fn try_score(&self, text: &str) -> (r: Option<OcrMatch>)
        ensures
            match r {
                Some(m) => {
                    &&& m.score == weight_found(self@, haystack(text@))
                    &&& texts(m.matched@) == labels_found(self@, haystack(text@))
                },
                None => weight_found(self@, haystack(text@)) > u32::MAX,
            },
    {
        let padded = pad(text);
        if self.weigh(padded.as_str()) > u32::MAX as u128 {
            None
        } else {
            Some(self.score(text))
        }
    }

    /// Scores the text that was read from an image. A match is returned where the
    /// score is enough for a detection.
    pub fn check(&self, text: &str) -> (r: Result<Option<OcrMatch>, ScoreTooLarge>)
        ensures
            match r {
                Ok(Some(m)) => {
                    &&& weight_found(self@, haystack(text@)) >= self.threshold()
                    &&& m.score == weight_found(self@, haystack(text@))
                    &&& texts(m.matched@) == labels_found(self@, haystack(text@))
                },
                Ok(None) => weight_found(self@, haystack(text@)) < self.threshold(),
                Err(_) => weight_found(self@, haystack(text@)) > u32::MAX,
            },
    {
        match self.try_score(text) {
            Some(m) => Ok(self.verdict(m)),
            None => Err(ScoreTooLarge),
        }
    }

    /// Scores what the program that reads text wrote. What is no UTF-8 in it does not
    /// stop the rest from being scored.
    pub fn check_output(&self, output: &[u8]) -> (r: Result<Option<OcrMatch>, ScoreTooLarge>)
        ensures
            match r {
                Ok(Some(m)) => {
                    &&& weight_found(self@, haystack(lossy_text(output@))) >= self.threshold()
                    &&& m.score == weight_found(self@, haystack(lossy_text(output@)))
                    &&& texts(m.matched@) == labels_found(self@, haystack(lossy_text(output@)))
                },
                Ok(None) => weight_found(self@, haystack(lossy_text(output@))) < self.threshold(),
                Err(_) => weight_found(self@, haystack(lossy_text(output@))) > u32::MAX,
            },
    {
        let text = from_utf8_lossy(output);
        self.check(text.as_str())
    }

    /// A score that is enough for a detection.
    pub fn verdict(&self, m: OcrMatch) -> (r: Option<OcrMatch>)
        ensures
            r == if m.score >= self.threshold() {
                Some(m)
            } else {
                None
            },
    {
        if m.score >= self.score_threshold {
            Some(m)
        } else {
            None
        }
    }
}

/// The score of a text is above `u32::MAX`.
#[derive(Debug, Clone, Copy, PartialEq, Eq, Structural)]
pub struct ScoreTooLarge;

/// What phrases are looked for in: the words of a text, with a space at each end.
fn pad(text: &str) -> (r: String)
    ensures
        r@ == haystack(text@),
{
    let mut padded = String::new();
    padded.push(' ');
    padded.append(normalize(text).as_str());
    padded.push(' ');
    assert(padded@ =~= haystack(text@));
    padded
}

/// What is handed to the program that reads text.
pub enum Prepared {
    /// The image cannot be decoded.
    Unreadable,
    /// The image is too small to be worth reading.
    TooSmall,
    /// The image cannot be encoded again.
    Unwritable,
    /// A PNG.
    Png(Seq<u8>),
}

/// The PNG of an image that holds these pixels, or what stands against it.
pub open spec fn prepared_pixels(pixels: Seq<u8>, max_dimension: u32) -> Prepared {
    let size = pixels_size(pixels);
    if size.0 < MIN_DIMENSION || size.1 < MIN_DIMENSION {
        Prepared::TooSmall
    } else {
        let fitted = if size.0 > max_dimension || size.1 > max_dimension {
            fitted_pixels(pixels, max_dimension, max_dimension)
        } else {
            pixels
        };
        match rgb_png(fitted) {
            Some(png) => Prepared::Png(png),
            None => Prepared::Unwritable,
        }
    }
}

/// What is handed to the program that reads text, of these bytes.
pub open spec fn prepared(bytes: Seq<u8>, max_dimension: u32) -> Prepared {
    match decoded_pixels(bytes, Seq::empty(), MAX_DECODE_BYTES) {
        Some(pixels) => prepared_pixels(pixels, max_dimension),
        None => Prepared::Unreadable,
    }
}

/// What is done with an image of a size before it is read.
#[derive(Debug, Clone, Copy, PartialEq, Eq, Structural)]
pub enum Scaling {
    TooSmall,
    Keep,
    Shrink,
}

/// What is done with an image of a size before it is read.
pub fn scaling(width: u32, height: u32, max_dimension: u32) -> (r: Scaling)
    ensures
        r == if width < MIN_DIMENSION || height < MIN_DIMENSION {
            Scaling::TooSmall
        } else if width > max_dimension || height > max_dimension {
            Scaling::Shrink
        } else {
            Scaling::Keep
        },
{
    if width < MIN_DIMENSION || height < MIN_DIMENSION {
        Scaling::TooSmall
    } else if width > max_dimension || height > max_dimension {
        Scaling::Shrink
    } else {
        Scaling::Keep
    }
}

/// Decodes an image, within the limit that holds for hashing too, scales it down
/// where it is larger than is read, and encodes it as an RGB PNG. `None` for an
/// image that is too small to be worth reading.
///
/// The color is kept: dark screenshots lose their text in shades of gray.
pub fn prepare_image(bytes: &[u8], max_dimension: u32) -> (r: Result<Option<Vec<u8>>, ImageFault>)
    ensures
        match r {
            Ok(Some(png)) => prepared(bytes@, max_dimension) == Prepared::Png(png@),
            Ok(None) => prepared(bytes@, max_dimension) == Prepared::TooSmall,
            Err(ImageFault::Decode(_)) => prepared(bytes@, max_dimension) == Prepared::Unreadable,
            Err(ImageFault::Encode(_)) => prepared(bytes@, max_dimension) == Prepared::Unwritable,
            Err(ImageFault::Empty) => false,
        },
{
    let none = String::new();
    let img = match images::decode(bytes, none.as_str(), MAX_DECODE_BYTES) {
        Ok(img) => img,
        Err(e) => {
            return Err(ImageFault::Decode(e));
        },
    };
    let (width, height) = images::size(&img);
    let img = match scaling(width, height, max_dimension) {
        Scaling::TooSmall => {
            return Ok(None);
        },
        Scaling::Shrink => images::fit(&img, max_dimension, max_dimension),
        Scaling::Keep => img,
    };
    match images::encode_rgb_png(&img) {
        Ok(png) => Ok(Some(png)),
        Err(e) => Err(ImageFault::Encode(e)),
    }
}

/// The built-in phrases and their weights.
pub open spec fn builtin_rules() -> Seq<(Seq<char>, u32)> {
    seq![
        ("this post will be deleted"@, 4u32),
        ("to everyone who registers"@, 4u32),
        ("special promo code"@, 4u32),
        ("cryptocurrency casino"@, 4u32),
        ("claim your reward"@, 3u32),
        ("withdraw the bonus"@, 3u32),
        ("vyro"@, 3u32),
        ("mrbeast"@, 2u32),
        ("giving away"@, 2u32),
        ("was successfully"@, 4u32),
        ("activate code for bonus"@, 4u32),
        ("withdrawal success"@, 3u32),
        ("promo code"@, 3u32),
        ("rakeback"@, 3u32),
        ("select a withdraw method"@, 2u32),
        ("casino"@, 2u32),
        ("vip club"@, 1u32),
        ("bonus"@, 1u32),
        ("withdraw"@, 1u32),
        ("wallet"@, 1u32),
        ("каждому новому пользователю"@, 4u32),
        ("раздаёт"@, 3u32),
        ("казино"@, 3u32),
        ("промокод"@, 3u32),
        ("после регистрации"@, 2u32),
        ("бонус"@, 1u32),
        ("рублей"@, 1u32),
    ]
}

fn rule(pattern: &str, weight: u32) -> (r: OcrRule)
    ensures
        rule_view(r) == (pattern@, weight),
{
    OcrRule { pattern: pattern.to_owned(), weight }
}

/// The built-in phrases, for settings that name none. Generic words alone do not
/// make a detection at the default threshold: it takes one of the very specific
/// phrases with another sign, or several weaker ones.
pub fn default_rules() -> (r: Vec<OcrRule>)
    ensures
        rule_views(r@) == builtin_rules(),
{
    let r: Vec<OcrRule> = vec![
        // A celebrity who launches a casino.
        rule("this post will be deleted", 4),
        rule("to everyone who registers", 4),
        rule("special promo code", 4),
        rule("cryptocurrency casino", 4),
        rule("claim your reward", 3),
        rule("withdraw the bonus", 3),
        rule("vyro", 3),
        rule("mrbeast", 2),
        rule("giving away", 2),
        // The casino's site, and its popup. The broken English is the scam's own.
        rule("was successfully", 4),
        rule("activate code for bonus", 4),
        rule("withdrawal success", 3),
        rule("promo code", 3),
        rule("rakeback", 3),
        rule("select a withdraw method", 2),
        rule("casino", 2),
        rule("vip club", 1),
        rule("bonus", 1),
        rule("withdraw", 1),
        rule("wallet", 1),
        // In Russian: someone opened a casino and pays every new user.
        rule("каждому новому пользователю", 4),
        rule("раздаёт", 3),
        rule("казино", 3),
        rule("промокод", 3),
        rule("после регистрации", 2),
        rule("бонус", 1),
        rule("рублей", 1),
    ];
    assert(rule_views(r@) =~= builtin_rules());
    r
}

/// Two characters in a row are not both spaces, and the first is not one.
pub open spec fn single_spaces(s: Seq<char>) -> bool {
    &&& s.len() > 0 ==> s[0] != ' '
    &&& forall|i: int| 0 < i < s.len() ==> s[i - 1] != ' ' || (#[trigger] s[i]) != ' '
    &&& forall|i: int| 0 <= i < s.len() ==> is_alphanumeric_char(#[trigger] s[i]) || s[i] == ' '
}

proof fn spaced_is_single(chars: Seq<char>)
    ensures
        single_spaces(spaced(chars)),
    decreases chars.len(),
{
    if chars.len() > 0 {
        spaced_is_single(chars.drop_last());
    }
}

/// The words of a text are letters and digits with one space between each two
/// words, and none at either end.
pub proof fn words_are_single_spaced(s: Seq<char>)
    ensures
        single_spaces(words(s)),
        words(s).len() > 0 ==> words(s).last() != ' ',
{
    let out = spaced(lowercase_chars(s));
    spaced_is_single(lowercase_chars(s));
    if out.len() > 0 && out.last() == ' ' {
        assert(out[out.len() - 1] == ' ');
        if out.len() > 1 {
            assert(out[out.len() - 2] != ' ');
        }
    }
}

/// There is no letter or digit among the characters.
pub open spec fn separates(chars: Seq<char>) -> bool {
    forall|i: int| 0 <= i < chars.len() ==> !is_alphanumeric_char(#[trigger] chars[i])
}

/// Those of two texts that are not empty, with one space between them.
pub open spec fn side_by_side(a: Seq<char>, b: Seq<char>) -> Seq<char> {
    if a.len() == 0 {
        b
    } else if b.len() == 0 {
        a
    } else {
        a + seq![' '] + b
    }
}

/// What separates adds one space to words that no space follows yet.
proof fn spaced_before_separator(a: Seq<char>, sep: Seq<char>)
    requires
        sep.len() > 0,
        separates(sep),
    ensures
        spaced(a + sep) == if spaced(a).len() > 0 && spaced(a).last() != ' ' {
            spaced(a).push(' ')
        } else {
            spaced(a)
        },
    decreases sep.len(),
{
    let init = sep.drop_last();
    assert((a + sep).drop_last() =~= a + init);
    assert((a + sep).last() == sep[sep.len() - 1]);
    if init.len() > 0 {
        assert forall|i: int| 0 <= i < init.len() implies !is_alphanumeric_char(
            #[trigger] init[i],
        ) by {
            assert(init[i] == sep[i]);
        }
        spaced_before_separator(a, init);
    } else {
        assert(a + init =~= a);
    }
}

/// Behind a space, or at the start, characters are made words of as on their own.
proof fn spaced_behind_space(a: Seq<char>, b: Seq<char>)
    requires
        spaced(a).len() == 0 || spaced(a).last() == ' ',
    ensures
        spaced(a + b) == spaced(a) + spaced(b),
    decreases b.len(),
{
    if b.len() == 0 {
        assert(a + b =~= a);
        assert(spaced(a) + spaced(b) =~= spaced(a));
    } else {
        spaced_behind_space(a, b.drop_last());
        assert((a + b).drop_last() =~= a + b.drop_last());
        assert((a + b).last() == b.last());
        let before = spaced(b.drop_last());
        if before.len() == 0 {
            assert(spaced(a) + before =~= spaced(a));
        }
        assert(spaced(a + b) =~= spaced(a) + spaced(b));
    }
}

proof fn separated_holds_words(chars: Seq<char>)
    ensures
        separated(chars).len() == 0 <==> spaced(chars).len() == 0,
{
    spaced_is_single(chars);
}

/// The words of characters with a separator between them are the words of those
/// before it and the words of those behind it, with one space between them.
pub proof fn separators_part_words(a: Seq<char>, sep: Seq<char>, b: Seq<char>)
    requires
        sep.len() > 0,
        separates(sep),
    ensures
        separated(a + sep + b) == side_by_side(separated(a), separated(b)),
{
    spaced_before_separator(a, sep);
    spaced_behind_space(a + sep, b);
    separated_holds_words(a);
    separated_holds_words(b);
    let first = spaced(a + sep);
    let second = spaced(b);
    if first.len() == 0 {
        assert(first + second =~= second);
    } else {
        assert(first =~= separated(a).push(' '));
        if second.len() == 0 {
            assert(first + second =~= first);
            assert(first.drop_last() =~= separated(a));
        } else {
            assert((first + second).last() == second.last());
            assert(without_last_space(first + second) =~= first + separated(b));
            assert(first + separated(b) =~= separated(a) + seq![' '] + separated(b));
        }
    }
}

proof fn lowercase_of_parts(a: Seq<char>, b: Seq<char>)
    ensures
        lowercase_chars(a + b) == lowercase_chars(a) + lowercase_chars(b),
    decreases b.len(),
{
    if b.len() == 0 {
        assert(a + b =~= a);
        assert(lowercase_chars(a) + lowercase_chars(b) =~= lowercase_chars(a));
    } else {
        lowercase_of_parts(a, b.drop_last());
        assert((a + b).drop_last() =~= a + b.drop_last());
        assert((a + b).last() == b.last());
        assert(lowercase_chars(a + b) =~= lowercase_chars(a) + lowercase_chars(b));
    }
}

/// The words of two texts with a separator between them are the words of the one
/// and the words of the other, with one space between them.
pub proof fn parted_texts_keep_their_words(a: Seq<char>, sep: Seq<char>, b: Seq<char>)
    requires
        sep.len() > 0,
        separates(lowercase_chars(sep)),
    ensures
        words(a + sep + b) == side_by_side(words(a), words(b)),
{
    lowercase_of_parts(a + sep, b);
    lowercase_of_parts(a, sep);
    separators_part_words(lowercase_chars(a), lowercase_chars(sep), lowercase_chars(b));
}

/// The weights of all the phrases.
pub open spec fn total_weight(rules: Seq<Phrase>) -> nat
    decreases rules.len(),
{
    if rules.len() == 0 {
        0
    } else {
        total_weight(rules.drop_last()) + rules.last().weight as nat
    }
}

/// A phrase counts once, however often it occurs: no text scores more than all
/// the phrases together.
pub proof fn phrases_count_once(rules: Seq<Phrase>, haystack: Seq<char>)
    ensures
        weight_found(rules, haystack) <= total_weight(rules),
        labels_found(rules, haystack).len() <= rules.len(),
    decreases rules.len(),
{
    if rules.len() > 0 {
        phrases_count_once(rules.drop_last(), haystack);
    }
}

/// A phrase is found in a text that has its words, whatever the case, the
/// punctuation and the look-alikes.
pub proof fn phrases_are_found_by_their_words(text: Seq<char>, pattern: Seq<char>)
    requires
        words(text) == words(pattern),
    ensures
        contains_text(haystack(text), words(pattern)),
{
    let found = words(pattern);
    assert(haystack(text).subrange(1, 1 + found.len() as int) =~= found);
    assert(crate::text::occurs_at(haystack(text), found, 1));
}

/// No built-in phrase alone is enough at the default threshold.
pub proof fn no_builtin_phrase_is_enough(cfg: OcrConfig)
    requires
        cfg.score_threshold == DEFAULT_SCORE_THRESHOLD,
    ensures
        forall|i: int|
            0 <= i < builtin_rules().len() ==> (#[trigger] builtin_rules()[i]).1
                < cfg.score_threshold,
{
}

/// Each Cyrillic letter that looks like a Latin one is folded onto it, and no other
/// character changes.
pub proof fn look_alikes_are_folded(c: char)
    ensures
        ({
            let cyrillic = seq!['а', 'в', 'е', 'ё', 'к', 'м', 'н', 'о', 'р', 'с', 'т', 'у', 'х', 'і'];
            let latin = seq!['a', 'b', 'e', 'e', 'k', 'm', 'h', 'o', 'p', 'c', 't', 'y', 'x', 'i'];
            &&& forall|i: int| 0 <= i < 14 ==> folded(#[trigger] cyrillic[i]) == latin[i]
            &&& (forall|i: int| 0 <= i < 14 ==> #[trigger] cyrillic[i] != c) ==> folded(c) == c
        }),
{
    let cyrillic = seq!['а', 'в', 'е', 'ё', 'к', 'м', 'н', 'о', 'р', 'с', 'т', 'у', 'х', 'і'];
    assert(cyrillic[0] == 'а' && cyrillic[1] == 'в' && cyrillic[2] == 'е' && cyrillic[3] == 'ё'
        && cyrillic[4] == 'к' && cyrillic[5] == 'м' && cyrillic[6] == 'н' && cyrillic[7] == 'о'
        && cyrillic[8] == 'р' && cyrillic[9] == 'с' && cyrillic[10] == 'т' && cyrillic[11] == 'у'
        && cyrillic[12] == 'х' && cyrillic[13] == 'і');
}

/// Letters and digits are all kept, in their order: characters that are nothing else make
/// one word of the same length.
pub proof fn letters_and_digits_are_kept(chars: Seq<char>)
    requires
        forall|i: int| 0 <= i < chars.len() ==> is_alphanumeric_char(folded(#[trigger] chars[i])),
    ensures
        separated(chars) == chars.map_values(|c: char| folded(c)),
{
    letters_are_spaced(chars);
    let word = chars.map_values(|c: char| folded(c));
    if chars.len() > 0 {
        assert(word.last() == folded(chars[chars.len() - 1]));
    }
}

proof fn letters_are_spaced(chars: Seq<char>)
    requires
        forall|i: int| 0 <= i < chars.len() ==> is_alphanumeric_char(folded(#[trigger] chars[i])),
    ensures
        spaced(chars) == chars.map_values(|c: char| folded(c)),
    decreases chars.len(),
{
    let word = chars.map_values(|c: char| folded(c));
    if chars.len() == 0 {
        assert(word =~= Seq::empty());
    } else {
        let init = chars.drop_last();
        assert forall|i: int| 0 <= i < init.len() implies is_alphanumeric_char(
            folded(#[trigger] init[i]),
        ) by {
            assert(init[i] == chars[i]);
        }
        letters_are_spaced(init);
        assert(is_alphanumeric_char(folded(chars[chars.len() - 1])));
        assert(word =~= init.map_values(|c: char| folded(c)).push(folded(chars.last())));
    }
}

/// The lower case of a text is that of its characters, one after the other.
pub proof fn lower_case_goes_by_characters(a: Seq<char>, b: Seq<char>, c: char)
    ensures
        lowercase_chars(a + b) == lowercase_chars(a) + lowercase_chars(b),
        lowercase_chars(seq![c]) == lowercase_of(c),
        lowercase_chars(Seq::empty()).len() == 0,
{
    lowercase_of_parts(a, b);
    assert(seq![c].drop_last() =~= Seq::empty());
    assert(lowercase_chars(seq![c].drop_last()) =~= Seq::empty());
    assert(lowercase_chars(seq![c]) =~= lowercase_of(c));
}

/// A phrase is found wherever it stands in a text, set off by separators, whatever comes
/// before it and behind it.
pub proof fn phrases_are_found_anywhere(
    before: Seq<char>,
    first: Seq<char>,
    phrase: Seq<char>,
    second: Seq<char>,
    behind: Seq<char>,
)
    requires
        first.len() > 0,
        second.len() > 0,
        separates(lowercase_chars(first)),
        separates(lowercase_chars(second)),
    ensures
        contains_text(haystack(before + first + phrase + second + behind), words(phrase)),
{
    let head = before + first + phrase;
    let text = head + second + behind;
    let p = words(phrase);
    parted_texts_keep_their_words(head, second, behind);
    parted_texts_keep_their_words(before, first, phrase);
    let w = words(text);
    let h = words(head);
    let at: int = if p.len() == 0 {
        0
    } else {
        h.len() - p.len()
    };
    assert(p.len() > 0 ==> h.subrange(at, h.len() as int) =~= p);
    let all = haystack(text);
    if p.len() == 0 {
        assert(all.subrange(0, 0) =~= p);
        assert(crate::text::occurs_at(all, p, 0));
    } else {
        assert(w.subrange(0, h.len() as int) =~= h);
        assert forall|i: int| 0 <= i < p.len() implies all[1 + at + i] == p[i] by {
            assert(all[1 + at + i] == w[at + i]);
            assert(w.subrange(0, h.len() as int)[at + i] == h[at + i]);
            assert(h.subrange(at, h.len() as int)[i] == p[i]);
        }
        assert(all.subrange(1 + at, 1 + at + p.len()) =~= p);
        assert(crate::text::occurs_at(all, p, 1 + at));
    }
}

/// The score is the sum over the phrases: each that occurs adds its weight and its label,
/// and one that does not adds nothing.
pub proof fn scores_add_up(a: Seq<Phrase>, b: Seq<Phrase>, phrase: Phrase, haystack: Seq<char>)
    ensures
        weight_found(a + b, haystack) == weight_found(a, haystack) + weight_found(b, haystack),
        labels_found(a + b, haystack) == labels_found(a, haystack) + labels_found(b, haystack),
        contains_text(haystack, phrase.words) ==> weight_found(seq![phrase], haystack)
            == phrase.weight && labels_found(seq![phrase], haystack) == seq![phrase.label],
        !contains_text(haystack, phrase.words) ==> weight_found(seq![phrase], haystack) == 0
            && labels_found(seq![phrase], haystack).len() == 0,
    decreases b.len(),
{
    if b.len() == 0 {
        assert(a + b =~= a);
        assert(labels_found(a, haystack) + labels_found(b, haystack) =~= labels_found(a, haystack));
    } else {
        scores_add_up(a, b.drop_last(), phrase, haystack);
        assert((a + b).drop_last() =~= a + b.drop_last());
        assert((a + b).last() == b.last());
        assert(labels_found(a + b, haystack) =~= labels_found(a, haystack) + labels_found(
            b,
            haystack,
        ));
    }
    let one = seq![phrase];
    assert(one.drop_last() =~= Seq::empty());
    assert(weight_found(one.drop_last(), haystack) == 0);
    assert(labels_found(one.drop_last(), haystack) =~= Seq::empty());
    assert(Seq::<Seq<char>>::empty().push(phrase.label) =~= seq![phrase.label]);
}

/// Every configured phrase with words is looked for, as it was written and with its own
/// weight. One without any is not.
pub proof fn every_phrase_with_words_is_looked_for(
    rules: Seq<(Seq<char>, u32)>,
    pattern: Seq<char>,
    weight: u32,
)
    ensures
        words(pattern).len() > 0 ==> compiled_rules(rules.push((pattern, weight)))
            == compiled_rules(rules).push(
            Phrase { label: pattern, words: words(pattern), weight },
        ),
        words(pattern).len() == 0 ==> compiled_rules(rules.push((pattern, weight)))
            == compiled_rules(rules),
        compiled_rules(Seq::empty()).len() == 0,
{
    assert(rules.push((pattern, weight)).drop_last() =~= rules);
}

/// An image is read unless it is smaller than 64 pixels either way. It is scaled down only
/// where it is larger than is read, and it is handed over as the PNG of what is left.
pub proof fn images_are_prepared_for_reading(pixels: Seq<u8>, max_dimension: u32)
    ensures
        ({
            let (width, height) = pixels_size(pixels);
            let result = prepared_pixels(pixels, max_dimension);
            let read = if width <= max_dimension && height <= max_dimension {
                pixels
            } else {
                fitted_pixels(pixels, max_dimension, max_dimension)
            };
            &&& result is TooSmall <==> width < 64 || height < 64
            &&& width >= 64 && height >= 64 && rgb_png(read) is Some ==> (result matches
                Prepared::Png(png) && png == rgb_png(read)->0)
            &&& width >= 64 && height >= 64 && rgb_png(read) is None ==> result is Unwritable
        }),
{
}

/// An image is read as far as it can be decoded within 128 MiB, by its content alone.
pub proof fn what_can_be_decoded_is_prepared(bytes: Seq<u8>, max_dimension: u32)
    ensures
        match decoded_pixels(bytes, Seq::empty(), 134217728) {
            Some(pixels) => prepared(bytes, max_dimension) == prepared_pixels(
                pixels,
                max_dimension,
            ),
            None => prepared(bytes, max_dimension) is Unreadable,
        },
{
}

/// A limit that is set too low counts as the least that is allowed, and any other counts
/// as it was set.
pub proof fn limits_are_raised_to_the_least(n: int, least: int)
    ensures
        n >= least ==> at_least(n, least) == n,
        n < least ==> at_least(n, least) == least,
{
}

/// A phrase is found only where its words stand among the words of the text.
pub proof fn phrases_are_found_only_among_words(text: Seq<char>, phrase: Seq<char>)
    requires
        phrase.len() > 0,
        phrase[0] != ' ',
        phrase.last() != ' ',
        contains_text(haystack(text), phrase),
    ensures
        contains_text(words(text), phrase),
{
    let all = haystack(text);
    let w = words(text);
    let at = choose|at: int| crate::text::occurs_at(all, phrase, at);
    let found = all.subrange(at, at + phrase.len());
    assert(found[0] == phrase[0]);
    assert(found[phrase.len() - 1] == phrase.last());
    assert(at > 0);
    assert(at + phrase.len() < all.len());
    assert(w.subrange(at - 1, at - 1 + phrase.len()) =~= phrase) by {
        assert forall|i: int| 0 <= i < phrase.len() implies w[at - 1 + i] == phrase[i] by {
            assert(found[i] == all[at + i]);
        }
    }
    assert(crate::text::occurs_at(w, phrase, at - 1));
}

/// A scanner goes by its settings: it looks for the phrases it was made for, by their
/// words, and with the score, the program and the languages that are set. Limits that are
/// set too low are raised to 64 pixels, one second and one run.
pub proof fn scanners_go_by_their_settings(
    scanner: OcrScanner,
    cfg: OcrConfig,
    rules: Seq<(Seq<char>, u32)>,
)
    requires
        scanner.made_for(cfg, rules),
    ensures
        scanner@ == compiled_rules(rules),
        scanner.threshold() == cfg.score_threshold,
        cfg.max_dimension >= 64 ==> scanner.dimension_limit() == cfg.max_dimension,
        cfg.max_dimension < 64 ==> scanner.dimension_limit() == 64,
        cfg.timeout_seconds >= 1 ==> scanner.time_limit() == cfg.timeout_seconds,
        cfg.timeout_seconds == 0 ==> scanner.time_limit() == 1,
        cfg.max_concurrent >= 1 ==> scanner.run_limit() == cfg.max_concurrent,
        cfg.max_concurrent == 0 ==> scanner.run_limit() == 1,
        scanner.program() == cfg.tesseract_path@,
        scanner.language_list() == cfg.languages@,
{
}

} // verus!
