use vstd::prelude::*;
use std::sync::mpsc::Receiver;
use crate::bridge::RecognitionBridge;
use crate::engine::{
    engine_words, lemma_accepted_row_gives_word, parse_engine_output, spec_parse_row,
    word_views, RecognizedWord,
};
use crate::text::text_lines;
use crate::geometry::{Point, Rect};
use crate::lines::{group_words_into_lines, lemma_every_word_in_a_line, line_views, lines_of, lines_string, lines_text, RecognizedLine};
use crate::raster::{crop_box, png_rgba, FrameBuffer};
use crate::selection::SelectionController;

verus! {

pub const DEFAULT_LANGUAGE: &'static str = "eng";

pub const DEFAULT_PAGE_SEGMENTATION: i32 = 6;

pub const DEFAULT_ENGINE_MODE: i32 = 3;

pub const DEFAULT_DPI: i32 = 150;

pub const MAX_PAGE_SEGMENTATION: i32 = 13;

pub const MAX_ENGINE_MODE: i32 = 3;

pub const MIN_DPI: i32 = 50;

pub const MAX_DPI: i32 = 300;

/// Shown when the crop could not be encoded for a remote service.
pub const ENCODE_ERROR_TEXT: &'static str = "Error: No se pudo codificar la imagen a PNG.";

pub open spec fn clamp(v: int, lo: int, hi: int) -> int {
    if v < lo {
        lo
    } else if v > hi {
        hi
    } else {
        v
    }
}

fn clamp_i32(v: i32, lo: i32, hi: i32) -> (r: i32)
    requires
        lo <= hi,
    ensures
        r == clamp(v as int, lo as int, hi as int),
{
    if v < lo {
        lo
    } else if v > hi {
        hi
    } else {
        v
    }
}

/// The options of the local OCR engine.
#[derive(Clone, Debug)]
pub struct EngineConfig {
    pub lang: String,
    pub psm: Option<i32>,
    pub oem: Option<i32>,
    pub dpi: Option<i32>,
}

impl EngineConfig {
    pub fn new() -> (r: EngineConfig)
        ensures
            r.lang@ == DEFAULT_LANGUAGE@,
            r.psm == Some(DEFAULT_PAGE_SEGMENTATION),
            r.oem == Some(DEFAULT_ENGINE_MODE),
            r.dpi == Some(DEFAULT_DPI),
    {
        EngineConfig {
            lang: DEFAULT_LANGUAGE.to_owned(),
            psm: Some(DEFAULT_PAGE_SEGMENTATION),
            oem: Some(DEFAULT_ENGINE_MODE),
            dpi: Some(DEFAULT_DPI),
        }
    }

    /// Sets the page segmentation mode, clamped to the engine's 0 to 13.
    pub fn set_psm(&mut self, v: i32)
        ensures
            final(self).psm == Some(clamp(v as int, 0, MAX_PAGE_SEGMENTATION as int) as i32),
            final(self).lang == old(self).lang,
            final(self).oem == old(self).oem,
            final(self).dpi == old(self).dpi,
    {
        self.psm = Some(clamp_i32(v, 0, MAX_PAGE_SEGMENTATION));
    }

    /// Sets the engine mode, clamped to the engine's 0 to 3.
    pub fn set_oem(&mut self, v: i32)
        ensures
            final(self).oem == Some(clamp(v as int, 0, MAX_ENGINE_MODE as int) as i32),
            final(self).lang == old(self).lang,
            final(self).psm == old(self).psm,
            final(self).dpi == old(self).dpi,
    {
        self.oem = Some(clamp_i32(v, 0, MAX_ENGINE_MODE));
    }

    /// Sets the resolution hint, clamped to 50 to 300 dots per inch.
    pub fn set_dpi(&mut self, v: i32)
        ensures
            final(self).dpi == Some(clamp(v as int, MIN_DPI as int, MAX_DPI as int) as i32),
            final(self).lang == old(self).lang,
            final(self).psm == old(self).psm,
            final(self).oem == old(self).oem,
    {
        self.dpi = Some(clamp_i32(v, MIN_DPI, MAX_DPI));
    }
}

/// One capture session: the captured frame, the selection over it, the
/// words and lines that the local engine found in it, the result text, and
/// the slot of the remote recognition job.
pub struct OcrSession {
    pub frame: FrameBuffer,
    pub selection: SelectionController,
    pub words: Vec<RecognizedWord>,
    pub lines: Vec<RecognizedLine>,
    pub results: String,
    pub bridge: RecognitionBridge,
    pub engine: EngineConfig,
}

impl OcrSession {
    pub open spec fn wf(&self) -> bool {
        self.frame.wf() && self.bridge.wf()
    }

    pub fn new(frame: FrameBuffer) -> (r: OcrSession)
        requires
            frame.wf(),
        ensures
            r.wf(),
            r.frame == frame,
            r.selection.selection is None,
            r.selection.drag_start is None,
            r.selection.mode == crate::selection::DragMode::Idle,
            r.engine.lang@ == DEFAULT_LANGUAGE@,
            r.engine.psm == Some(DEFAULT_PAGE_SEGMENTATION),
            r.engine.oem == Some(DEFAULT_ENGINE_MODE),
            r.engine.dpi == Some(DEFAULT_DPI),
            r.words@.len() == 0,
            r.lines@.len() == 0,
            r.results@.len() == 0,
            !r.bridge.spec_working(),
            r.bridge.spec_receiver() is None,
            !r.bridge.spec_showing(),
    {
        OcrSession {
            frame,
            selection: SelectionController::new(),
            words: Vec::new(),
            lines: Vec::new(),
            results: String::new(),
            bridge: RecognitionBridge::new(),
            engine: EngineConfig::new(),
        }
    }

    /// A press at `p`; a press that starts a new selection drops the words
    /// and lines found in the old one.
    pub fn pointer_down(&mut self, p: Point)
        requires
            old(self).wf(),
        ensures
            final(self).wf(),
            final(self).selection == old(self).selection.after_down(p).0,
            final(self).frame == old(self).frame,
            final(self).results == old(self).results,
            final(self).bridge == old(self).bridge,
            final(self).engine == old(self).engine,
            old(self).selection.after_down(p).1 ==> final(self).words@.len() == 0
                && final(self).lines@.len() == 0,
            !old(self).selection.after_down(p).1 ==> final(self).words == old(self).words
                && final(self).lines == old(self).lines,
    {
        let started = self.selection.on_pointer_down(p);
        if started {
            self.words = Vec::new();
            self.lines = Vec::new();
        }
    }

    /// A drag to `p`.
    pub fn pointer_drag(&mut self, p: Point)
        ensures
            final(self).selection == old(self).selection.after_drag(p),
            final(self).frame == old(self).frame,
            final(self).words == old(self).words,
            final(self).lines == old(self).lines,
            final(self).results == old(self).results,
            final(self).bridge == old(self).bridge,
            final(self).engine == old(self).engine,
    {
        self.selection.on_pointer_drag(p);
    }

    /// The release that ends a drag; gives the finished selection, which the
    /// caller then hands to the local engine.
    pub fn pointer_up(&mut self) -> (finished: Option<Rect>)
        ensures
            (final(self).selection, finished) == old(self).selection.after_up(),
            final(self).frame == old(self).frame,
            final(self).words == old(self).words,
            final(self).lines == old(self).lines,
            final(self).results == old(self).results,
            final(self).bridge == old(self).bridge,
            final(self).engine == old(self).engine,
    {
        self.selection.on_pointer_up()
    }

    /// The pixels under the selection, or `None` when there is no selection
    /// or it covers no pixel of the frame.
    pub fn selection_crop(&self) -> (r: Option<FrameBuffer>)
        requires
            self.wf(),
        ensures
            match self.selection.selection {
                None => r is None,
                Some(sel) => {
                    let (x, y, w, h) = crop_box(self.frame.width as int, self.frame.height as int, sel);
                    &&& r is Some <==> w > 0 && h > 0
                    &&& r matches Some(c) ==> self.frame.is_block(&c, x, y, w, h)
                },
            },
    {
        match self.selection.selection {
            None => None,
            Some(sel) => self.frame.extract(&sel),
        }
    }

    /// Takes in the table that the local engine produced for the selection:
    /// its words, their lines, and the text of the lines replace what was
    /// there.
    pub fn apply_engine_output(&mut self, output: &str)
        requires
            old(self).wf(),
        ensures
            final(self).wf(),
            word_views(final(self).words@) == engine_words(output@),
            line_views(final(self).lines@) == lines_of(engine_words(output@)),
            final(self).results@ == lines_text(lines_of(engine_words(output@))),
            final(self).selection == old(self).selection,
            final(self).frame == old(self).frame,
            final(self).bridge == old(self).bridge,
            final(self).engine == old(self).engine,
    {
        let words = parse_engine_output(output);
        let lines = group_words_into_lines(&words);
        let text = lines_string(&lines);
        self.words = words;
        self.lines = lines;
        self.results = text;
    }

    /// The local engine failed: the words and lines are dropped, and the
    /// result text is left alone.
    pub fn apply_engine_failure(&mut self)
        requires
            old(self).wf(),
        ensures
            final(self).wf(),
            final(self).words@.len() == 0,
            final(self).lines@.len() == 0,
            final(self).results == old(self).results,
            final(self).selection == old(self).selection,
            final(self).frame == old(self).frame,
            final(self).bridge == old(self).bridge,
            final(self).engine == old(self).engine,
    {
        self.words = Vec::new();
        self.lines = Vec::new();
    }

    /// The encoded image to send to a remote service, or `None` when a job
    /// is running already, there is no selection, or it covers no pixel.
    /// When encoding fails, the result text says so and `None` comes back.
    pub fn prepare_submission(&mut self) -> (r: Option<Vec<u8>>)
        requires
            old(self).wf(),
        ensures
            final(self).wf(),
            final(self).selection == old(self).selection,
            final(self).frame == old(self).frame,
            final(self).words == old(self).words,
            final(self).lines == old(self).lines,
            final(self).bridge == old(self).bridge,
            final(self).engine == old(self).engine,
            final(self).results == old(self).results || final(self).results@
                == ENCODE_ERROR_TEXT@,
            old(self).bridge.spec_working() ==> r is None && final(self).results == old(self).results,
            old(self).selection.selection is None ==> r is None && final(self).results
                == old(self).results,
            old(self).selection.selection matches Some(sel) ==> ({
                let (x, y, w, h) = crop_box(old(self).frame.width as int, old(self).frame.height as int, sel);
                &&& (w == 0 || h == 0) ==> r is None && final(self).results == old(self).results
                &&& r matches Some(png) ==> !old(self).bridge.spec_working() && w > 0 && h > 0
                    && exists|c: FrameBuffer| old(self).frame.is_block(&c, x, y, w, h)
                    && png@ == png_rgba(c.width, c.height, c.pixels@)
                &&& (r is None && final(self).results != old(self).results) ==> !old(self).bridge.spec_working()
                    && w > 0 && h > 0
                &&& (!old(self).bridge.spec_working() && w > 0 && h > 0) ==> r is Some
                    && final(self).results == old(self).results
            }),
    {
        if self.bridge.is_working() {
            return None;
        }
        let crop = match self.selection_crop() {
            None => {
                return None;
            },
            Some(c) => c,
        };
        match crop.encode_png() {
            Ok(png) => Some(png),
            Err(_) => {
                self.results = ENCODE_ERROR_TEXT.to_owned();
                None
            },
        }
    }

    /// Starts watching a remote job that reports through `receiver`; refused,
    /// with nothing changed, while another job runs.
    pub fn begin_job(&mut self, receiver: Receiver<String>) -> (accepted: bool)
        requires
            old(self).wf(),
        ensures
            final(self).wf(),
            (final(self).bridge, accepted) == old(self).bridge.spec_submit(receiver),
            accepted == !old(self).bridge.spec_working(),
            accepted ==> final(self).bridge.spec_working() && final(self).bridge.spec_receiver()
                == Some(receiver),
            !accepted ==> final(self).bridge == old(self).bridge,
            !accepted ==> final(self).results == old(self).results,
            accepted ==> final(self).results@ == crate::bridge::WORKING_TEXT@,
            final(self).selection == old(self).selection,
            final(self).frame == old(self).frame,
            final(self).words == old(self).words,
            final(self).lines == old(self).lines,
            final(self).engine == old(self).engine,
    {
        self.bridge.try_submit(receiver, &mut self.results)
    }

    /// Called once per frame: takes whatever the running job has sent.
    pub fn poll(&mut self)
        requires
            old(self).wf(),
        ensures
            final(self).wf(),
            !old(self).bridge.spec_working() ==> final(self).results == old(self).results
                && final(self).bridge == old(self).bridge,
            exists|chunks: Seq<Seq<char>>|
                #[trigger] crate::bridge::append_chunks(
                    old(self).results@,
                    old(self).bridge.spec_showing(),
                    chunks,
                ) == final(self).results@,
            final(self).selection == old(self).selection,
            final(self).frame == old(self).frame,
            final(self).words == old(self).words,
            final(self).lines == old(self).lines,
            final(self).engine == old(self).engine,
    {
        self.bridge.poll(&mut self.results);
    }

    /// Whether the loop must draw again without waiting for input: a running
    /// job's chunks do not wake it.
    pub fn needs_redraw(&self) -> (r: bool)
        ensures
            r == self.bridge.spec_working(),
    {
        self.bridge.is_working()
    }
}

/// A line of the engine's table after the header that has twelve columns,
/// parsing numbers, a confidence strictly above the threshold and a text
/// that is not blank gives a word; once the table is taken in, the session
/// holds that word, and one of its lines holds it too.
pub proof fn lemma_accepted_row_reaches_session(out: Seq<char>, i: int)
    requires
        1 <= i < text_lines(out).len(),
        spec_parse_row(text_lines(out)[i]) is Some,
    ensures
        ({
            let w = spec_parse_row(text_lines(out)[i])->0;
            &&& engine_words(out).contains(w)
            &&& exists|k: int|
                0 <= k < lines_of(engine_words(out)).len() && (#[trigger] lines_of(
                    engine_words(out),
                )[k]).0.contains(w)
        }),
{
    let rows = text_lines(out).skip(1);
    assert(rows[i - 1] == text_lines(out)[i]);
    lemma_accepted_row_gives_word(rows, i - 1);
    lemma_every_word_in_a_line(engine_words(out), spec_parse_row(text_lines(out)[i])->0);
}

} // verus!
