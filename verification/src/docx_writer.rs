use vstd::prelude::*;
use crate::text::{dec, dec_spec};
use crate::xml::{esc_spec, xml_esc};
use vstd::slice::slice_to_vec;
use vstd::utf8::encode_utf8;

verus! {

// ───────────────────────────── Document model ─────────────────────────────

/// One paragraph of a Word document.
#[derive(Debug)]
pub enum DocxPara {
    /// text, level
    Heading(String, u8),
    /// plain paragraph
    Text(String),
    /// raw Office Math (`<m:oMath ...>`)
    Math(String),
    /// relationship id, width and height in EMU
    Image(String, u32, u32),
}

/// Model of a [`DocxPara`].
pub enum SPara {
    Heading(Seq<char>, u8),
    Text(Seq<char>),
    Math(Seq<char>),
    Image(Seq<char>, u32, u32),
}

pub open spec fn para_view(p: DocxPara) -> SPara {
    match p {
        DocxPara::Heading(t, l) => SPara::Heading(t@, l),
        DocxPara::Text(t) => SPara::Text(t@),
        DocxPara::Math(t) => SPara::Math(t@),
        DocxPara::Image(id, w, h) => SPara::Image(id@, w, h),
    }
}

pub open spec fn paras_view(v: Seq<DocxPara>) -> Seq<SPara> {
    v.map_values(|p: DocxPara| para_view(p))
}

pub open spec fn images_view(v: Seq<(String, Vec<u8>)>) -> Seq<(Seq<char>, Seq<u8>)> {
    v.map_values(|e: (String, Vec<u8>)| (e.0@, e.1@))
}

/// A minimal Word (.docx) writer: headings, text, Office Math paragraphs
/// and PNG images.
pub struct DocxBuilder {
    paragraphs: Vec<DocxPara>,
    images: Vec<(String, Vec<u8>)>,
}

impl DocxBuilder {
    /// The images are numbered from `rId10` on, and the image paragraphs
    /// refer to them one to one, in order.
    #[verifier::type_invariant]
    spec fn images_match(self) -> bool {
        images_in_step(paras_view(self.paragraphs@), images_view(self.images@))
    }

    /// The paragraphs, in order.
    pub closed spec fn paras(&self) -> Seq<SPara> {
        paras_view(self.paragraphs@)
    }

    /// The images: relationship id and PNG bytes, in order.
    pub closed spec fn imgs(&self) -> Seq<(Seq<char>, Seq<u8>)> {
        images_view(self.images@)
    }

    /// An empty document.
    pub fn new() -> (b: Self)
        ensures
            b.paras() == Seq::<SPara>::empty(),
            b.imgs() == Seq::<(Seq<char>, Seq<u8>)>::empty(),
    {
        let paragraphs: Vec<DocxPara> = Vec::new();
        let images: Vec<(String, Vec<u8>)> = Vec::new();
        proof {
            law_builder_keeps_images_in_step(Seq::empty(), Seq::empty(), SPara::Text(Seq::empty()), Seq::empty(), 0, 0);
            assert(paras_view(paragraphs@) =~= Seq::<SPara>::empty());
            assert(images_view(images@) =~= Seq::<(Seq<char>, Seq<u8>)>::empty());
        }
        let b = DocxBuilder { paragraphs, images };
        assert(b.paras() =~= Seq::<SPara>::empty());
        assert(b.imgs() =~= Seq::<(Seq<char>, Seq<u8>)>::empty());
        b
    }

    /// Number of paragraphs so far.
    pub fn num_paragraphs(&self) -> (n: usize)
        ensures
            n == self.paras().len(),
    {
        self.paragraphs.len()
    }

    /// Number of images so far.
    pub fn num_images(&self) -> (n: usize)
        ensures
            n == self.imgs().len(),
    {
        self.images.len()
    }

    /// Adds a heading of the given level.
    pub fn heading(self, text: &str, level: u8) -> (b: Self)
        ensures
            b.paras() == self.paras().push(SPara::Heading(text@, level)),
            b.imgs() == self.imgs(),
    {
        proof {
            use_type_invariant(&self);
            law_builder_keeps_images_in_step(self.paras(), self.imgs(), SPara::Heading(text@, level), Seq::empty(), 0, 0);
        }
        let ghost p = self.paras();
        let DocxBuilder { mut paragraphs, images } = self;
        paragraphs.push(DocxPara::Heading(String::from_str(text), level));
        assert(paras_view(paragraphs@) =~= p.push(SPara::Heading(text@, level)));
        DocxBuilder { paragraphs, images }
    }

    /// Adds a text paragraph, unless the text is empty.
    pub fn text(self, text: &str) -> (b: Self)
        ensures
            text@.len() == 0 ==> b.paras() == self.paras(),
            text@.len() > 0 ==> b.paras() == self.paras().push(SPara::Text(text@)),
            b.imgs() == self.imgs(),
    {
        proof {
            use_type_invariant(&self);
            law_builder_keeps_images_in_step(self.paras(), self.imgs(), SPara::Text(text@), Seq::empty(), 0, 0);
        }
        if text.is_empty() {
            return self;
        }
        let ghost p = self.paras();
        let DocxBuilder { mut paragraphs, images } = self;
        paragraphs.push(DocxPara::Text(String::from_str(text)));
        assert(paras_view(paragraphs@) =~= p.push(SPara::Text(text@)));
        DocxBuilder { paragraphs, images }
    }

    /// Adds an Office Math paragraph.
    pub fn math(self, omml: String) -> (b: Self)
        ensures
            b.paras() == self.paras().push(SPara::Math(omml@)),
            b.imgs() == self.imgs(),
    {
        proof {
            use_type_invariant(&self);
            law_builder_keeps_images_in_step(self.paras(), self.imgs(), SPara::Math(omml@), Seq::empty(), 0, 0);
        }
        let ghost p = self.paras();
        let ghost o = omml@;
        let DocxBuilder { mut paragraphs, images } = self;
        paragraphs.push(DocxPara::Math(omml));
        assert(paras_view(paragraphs@) =~= p.push(SPara::Math(o)));
        DocxBuilder { paragraphs, images }
    }

    /// Adds a PNG image of the given size in pixels (at 96 dpi, 9525 EMU a
    /// pixel). Its relationship id is `rId` and its number counted from 10.
    pub fn image(self, png: Vec<u8>, width_px: u32, height_px: u32) -> (b: Self)
        requires
            width_px * 9525 <= u32::MAX,
            height_px * 9525 <= u32::MAX,
            self.imgs().len() + 10 <= usize::MAX,
        ensures
            b.paras() == self.paras().push(
                SPara::Image(image_id(self.imgs().len() as int), (width_px * 9525) as u32, (height_px * 9525) as u32),
            ),
            b.imgs() == self.imgs().push((image_id(self.imgs().len() as int), png@)),
    {
        let ghost p = self.paras();
        let ghost im = self.imgs();
        let n = self.images.len();
        let w_emu = width_px * 9525;
        let h_emu = height_px * 9525;
        proof {
            use_type_invariant(&self);
            law_builder_keeps_images_in_step(p, im, SPara::Text(Seq::empty()), png@, w_emu, h_emu);
        }
        let mut id = String::from_str("rId");
        let num = dec((n + 10) as u64);
        id.append(num.as_str());
        let id2 = id.clone();
        let ghost pv = png@;
        let DocxBuilder { mut paragraphs, mut images } = self;
        paragraphs.push(DocxPara::Image(id, w_emu, h_emu));
        images.push((id2, png));
        assert(paras_view(paragraphs@) =~= p.push(SPara::Image(image_id(n as int), w_emu, h_emu)));
        assert(images_view(images@) =~= im.push((image_id(n as int), pv)));
        DocxBuilder { paragraphs, images }
    }
}

/// The relationship id of the image with index `i`.
pub open spec fn image_id(i: int) -> Seq<char> {
    "rId"@ + dec_spec((i + 10) as nat)
}

}

verus! {

// ───────────────────────────── document.xml ─────────────────────────────

pub open spec fn image_xml_spec(rel_id: Seq<char>, w: u32, h: u32, idx: nat) -> Seq<char> {
    let ws = dec_spec(w as nat);
    let hs = dec_spec(h as nat);
    let d = dec_spec(idx);
    "<w:p><w:r><w:rPr/><w:drawing><wp:inline distT=\"0\" distB=\"0\" distL=\"0\" distR=\"0\"><wp:extent cx=\""@
        + ws + "\" cy=\""@ + hs
        + "\"/><wp:effectExtent l=\"0\" t=\"0\" r=\"0\" b=\"0\"/><wp:docPr id=\""@ + d + "\" name=\"Image"@ + d
        + "\"/><wp:cNvGraphicFramePr><a:graphicFrameLocks xmlns:a=\"http://schemas.openxmlformats.org/drawingml/2006/main\" noChangeAspect=\"1\"/></wp:cNvGraphicFramePr><a:graphic xmlns:a=\"http://schemas.openxmlformats.org/drawingml/2006/main\"><a:graphicData uri=\"http://schemas.openxmlformats.org/drawingml/2006/picture\"><pic:pic xmlns:pic=\"http://schemas.openxmlformats.org/drawingml/2006/picture\"><pic:nvPicPr><pic:cNvPr id=\""@
        + d + "\" name=\"Image"@ + d
        + "\"/><pic:cNvPicPr/></pic:nvPicPr><pic:blipFill><a:blip r:embed=\""@ + rel_id
        + "\"/><a:stretch><a:fillRect/></a:stretch></pic:blipFill><pic:spPr><a:xfrm><a:off x=\"0\" y=\"0\"/><a:ext cx=\""@
        + ws + "\" cy=\""@ + hs
        + "\"/></a:xfrm><a:prstGeom prst=\"rect\"><a:avLst/></a:prstGeom></pic:spPr></pic:pic></a:graphicData></a:graphic></wp:inline></w:drawing></w:r></w:p>"@
}

/// The drawing paragraph of an inline image; `idx` numbers the drawing.
pub fn inline_image(rel_id: &str, w_emu: u32, h_emu: u32, idx: u32) -> (r: String)
    ensures
        r@ == image_xml_spec(rel_id@, w_emu, h_emu, idx as nat),
{
    let ws = dec(w_emu as u64);
    let hs = dec(h_emu as u64);
    let d = dec(idx as u64);
    let mut r = String::from_str("<w:p><w:r><w:rPr/><w:drawing><wp:inline distT=\"0\" distB=\"0\" distL=\"0\" distR=\"0\"><wp:extent cx=\"");
    r.append(ws.as_str());
    r.append("\" cy=\"");
    r.append(hs.as_str());
    r.append("\"/><wp:effectExtent l=\"0\" t=\"0\" r=\"0\" b=\"0\"/><wp:docPr id=\"");
    r.append(d.as_str());
    r.append("\" name=\"Image");
    r.append(d.as_str());
    r.append("\"/><wp:cNvGraphicFramePr><a:graphicFrameLocks xmlns:a=\"http://schemas.openxmlformats.org/drawingml/2006/main\" noChangeAspect=\"1\"/></wp:cNvGraphicFramePr><a:graphic xmlns:a=\"http://schemas.openxmlformats.org/drawingml/2006/main\"><a:graphicData uri=\"http://schemas.openxmlformats.org/drawingml/2006/picture\"><pic:pic xmlns:pic=\"http://schemas.openxmlformats.org/drawingml/2006/picture\"><pic:nvPicPr><pic:cNvPr id=\"");
    r.append(d.as_str());
    r.append("\" name=\"Image");
    r.append(d.as_str());
    r.append("\"/><pic:cNvPicPr/></pic:nvPicPr><pic:blipFill><a:blip r:embed=\"");
    r.append(rel_id);
    r.append("\"/><a:stretch><a:fillRect/></a:stretch></pic:blipFill><pic:spPr><a:xfrm><a:off x=\"0\" y=\"0\"/><a:ext cx=\"");
    r.append(ws.as_str());
    r.append("\" cy=\"");
    r.append(hs.as_str());
    r.append("\"/></a:xfrm><a:prstGeom prst=\"rect\"><a:avLst/></a:prstGeom></pic:spPr></pic:pic></a:graphicData></a:graphic></wp:inline></w:drawing></w:r></w:p>");
    r
}

/// The XML of one paragraph; `img` is the number of images so far. An
/// image's drawing is numbered from 1, its number taken into a `u32`.
pub open spec fn para_xml(p: SPara, img: nat) -> Seq<char> {
    match p {
        SPara::Heading(t, l) => "<w:p><w:pPr><w:pStyle w:val=\"Heading"@ + dec_spec(l as nat)
            + "\"/></w:pPr><w:r><w:t>"@ + esc_spec(t, true) + "</w:t></w:r></w:p>"@,
        SPara::Text(t) => "<w:p><w:r><w:t xml:space=\"preserve\">"@ + esc_spec(t, true) + "</w:t></w:r></w:p>"@,
        SPara::Math(o) => "<w:p><m:oMathPara><m:oMathParaPr><m:jc m:val=\"center\"/></m:oMathParaPr>"@ + o
            + "</m:oMathPara></w:p>"@,
        SPara::Image(id, w, h) => image_xml_spec(id, w, h, ((img + 1) as u32) as nat),
    }
}

/// Number of image paragraphs among the first `n`.
pub open spec fn images_before(ps: Seq<SPara>, n: int) -> nat
    decreases n,
{
    if n <= 0 || n > ps.len() {
        0
    } else {
        images_before(ps, n - 1) + if ps[n - 1] is Image { 1nat } else { 0nat }
    }
}

/// The body XML of the first `n` paragraphs; images are numbered from 1.
pub open spec fn body_xml(ps: Seq<SPara>, n: int) -> Seq<char>
    decreases n,
{
    if n <= 0 || n > ps.len() {
        Seq::empty()
    } else {
        body_xml(ps, n - 1) + para_xml(ps[n - 1], images_before(ps, n - 1))
    }
}

pub open spec fn document_head() -> Seq<char> {
    "<?xml version=\"1.0\" encoding=\"UTF-8\" standalone=\"yes\"?><w:document xmlns:wpc=\"http://schemas.microsoft.com/office/word/2010/wordprocessingCanvas\" xmlns:m=\"http://schemas.openxmlformats.org/officeDocument/2006/math\" xmlns:r=\"http://schemas.openxmlformats.org/officeDocument/2006/relationships\" xmlns:wp=\"http://schemas.openxmlformats.org/drawingml/2006/wordprocessingDrawing\" xmlns:w=\"http://schemas.openxmlformats.org/wordprocessingml/2006/main\" xmlns:w14=\"http://schemas.microsoft.com/office/word/2010/wordml\" xmlns:a=\"http://schemas.openxmlformats.org/drawingml/2006/main\" xmlns:pic=\"http://schemas.openxmlformats.org/drawingml/2006/picture\"><w:body>"@
}

/// `word/document.xml` for the paragraphs.
pub open spec fn document_xml(ps: Seq<SPara>) -> Seq<char> {
    document_head() + body_xml(ps, ps.len() as int) + "<w:sectPr/></w:body></w:document>"@
}

/// `word/document.xml` for the paragraphs (see [`document_xml`]).
pub fn build_document(paras: &Vec<DocxPara>) -> (r: String)
    ensures
        r@ == document_xml(paras_view(paras@)),
{
    let ghost ps = paras_view(paras@);
    let mut body = String::from_str("<?xml version=\"1.0\" encoding=\"UTF-8\" standalone=\"yes\"?><w:document xmlns:wpc=\"http://schemas.microsoft.com/office/word/2010/wordprocessingCanvas\" xmlns:m=\"http://schemas.openxmlformats.org/officeDocument/2006/math\" xmlns:r=\"http://schemas.openxmlformats.org/officeDocument/2006/relationships\" xmlns:wp=\"http://schemas.openxmlformats.org/drawingml/2006/wordprocessingDrawing\" xmlns:w=\"http://schemas.openxmlformats.org/wordprocessingml/2006/main\" xmlns:w14=\"http://schemas.microsoft.com/office/word/2010/wordml\" xmlns:a=\"http://schemas.openxmlformats.org/drawingml/2006/main\" xmlns:pic=\"http://schemas.openxmlformats.org/drawingml/2006/picture\"><w:body>");
    let ghost head = body@;
    let mut img_counter: usize = 0;
    let mut i: usize = 0;
    while i < paras.len()
        invariant
            i <= paras.len(),
            ps == paras_view(paras@),
            body@ == head + body_xml(ps, i as int),
            img_counter as nat == images_before(ps, i as int),
            img_counter <= i,
        decreases paras.len() - i,
    {
        assert(ps[i as int] == para_view(paras@[i as int]));
        match &paras[i] {
            DocxPara::Heading(text, level) => {
                let mut t = String::from_str("<w:p><w:pPr><w:pStyle w:val=\"Heading");
                let l = dec(*level as u64);
                t.append(l.as_str());
                t.append("\"/></w:pPr><w:r><w:t>");
                let e = xml_esc(text.as_str());
                t.append(e.as_str());
                t.append("</w:t></w:r></w:p>");
                body.append(t.as_str());
            },
            DocxPara::Text(text) => {
                let mut t = String::from_str("<w:p><w:r><w:t xml:space=\"preserve\">");
                let e = xml_esc(text.as_str());
                t.append(e.as_str());
                t.append("</w:t></w:r></w:p>");
                body.append(t.as_str());
            },
            DocxPara::Math(omml) => {
                let mut t = String::from_str("<w:p><m:oMathPara><m:oMathParaPr><m:jc m:val=\"center\"/></m:oMathParaPr>");
                t.append(omml.as_str());
                t.append("</m:oMathPara></w:p>");
                body.append(t.as_str());
            },
            DocxPara::Image(rel_id, w, h) => {
                img_counter += 1;
                let t = inline_image(rel_id.as_str(), *w, *h, img_counter as u32);
                body.append(t.as_str());
            },
        }
        i += 1;
        assert(body@ =~= head + body_xml(ps, i as int));
    }
    body.append("<w:sectPr/></w:body></w:document>");
    body
}

}

verus! {

// ───────────────────────────── Package parts ─────────────────────────────

pub open spec fn content_types_head() -> Seq<char> {
    "<?xml version=\"1.0\" encoding=\"UTF-8\" standalone=\"yes\"?><Types xmlns=\"http://schemas.openxmlformats.org/package/2006/content-types\"><Default Extension=\"rels\" ContentType=\"application/vnd.openxmlformats-package.relationships+xml\"/><Default Extension=\"xml\" ContentType=\"application/xml\"/><Default Extension=\"png\" ContentType=\"image/png\"/><Override PartName=\"/word/document.xml\" ContentType=\"application/vnd.openxmlformats-officedocument.wordprocessingml.document.main+xml\"/><Override PartName=\"/word/styles.xml\" ContentType=\"application/vnd.openxmlformats-officedocument.wordprocessingml.styles+xml\"/><Override PartName=\"/word/settings.xml\" ContentType=\"application/vnd.openxmlformats-officedocument.wordprocessingml.settings+xml\"/>"@
}

/// The content-type overrides of the first `n` images.
pub open spec fn image_types(n: int) -> Seq<char>
    decreases n,
{
    if n <= 0 {
        Seq::empty()
    } else {
        image_types(n - 1) + "<Override PartName=\"/word/media/"@ + image_id(n - 1) + ".png\" ContentType=\"image/png\"/>"@
    }
}

/// `[Content_Types].xml` for a document with `n` images.
pub open spec fn content_types_spec(n: int) -> Seq<char> {
    content_types_head() + image_types(n) + "</Types>"@
}

/// `[Content_Types].xml` for a document with `n` images.
pub fn content_types(n: usize) -> (r: String)
    requires
        n + 10 <= usize::MAX,
    ensures
        r@ == content_types_spec(n as int),
{
    let mut r = String::from_str("<?xml version=\"1.0\" encoding=\"UTF-8\" standalone=\"yes\"?><Types xmlns=\"http://schemas.openxmlformats.org/package/2006/content-types\"><Default Extension=\"rels\" ContentType=\"application/vnd.openxmlformats-package.relationships+xml\"/><Default Extension=\"xml\" ContentType=\"application/xml\"/><Default Extension=\"png\" ContentType=\"image/png\"/><Override PartName=\"/word/document.xml\" ContentType=\"application/vnd.openxmlformats-officedocument.wordprocessingml.document.main+xml\"/><Override PartName=\"/word/styles.xml\" ContentType=\"application/vnd.openxmlformats-officedocument.wordprocessingml.styles+xml\"/><Override PartName=\"/word/settings.xml\" ContentType=\"application/vnd.openxmlformats-officedocument.wordprocessingml.settings+xml\"/>");
    let ghost head = r@;
    let mut i: usize = 0;
    while i < n
        invariant
            i <= n,
            n + 10 <= usize::MAX,
            r@ == head + image_types(i as int),
        decreases n - i,
    {
        let mut t = String::from_str("<Override PartName=\"/word/media/");
        t.append("rId");
        let num = dec((i + 10) as u64);
        t.append(num.as_str());
        t.append(".png\" ContentType=\"image/png\"/>");
        r.append(t.as_str());
        i += 1;
        assert(r@ =~= head + image_types(i as int));
    }
    r.append("</Types>");
    r
}

pub open spec fn rels_head() -> Seq<char> {
    "<?xml version=\"1.0\" encoding=\"UTF-8\" standalone=\"yes\"?><Relationships xmlns=\"http://schemas.openxmlformats.org/package/2006/relationships\"><Relationship Id=\"rId1\" Type=\"http://schemas.openxmlformats.org/officeDocument/2006/relationships/styles\" Target=\"styles.xml\"/><Relationship Id=\"rId2\" Type=\"http://schemas.openxmlformats.org/officeDocument/2006/relationships/settings\" Target=\"settings.xml\"/>"@
}

/// The relationships of the first `n` images.
pub open spec fn image_rels(imgs: Seq<(Seq<char>, Seq<u8>)>, n: int) -> Seq<char>
    decreases n,
{
    if n <= 0 || n > imgs.len() {
        Seq::empty()
    } else {
        let id = imgs[n - 1].0;
        image_rels(imgs, n - 1) + "<Relationship Id=\""@ + id
            + "\" Type=\"http://schemas.openxmlformats.org/officeDocument/2006/relationships/image\" Target=\"media/"@
            + id + ".png\"/>"@
    }
}

/// `word/_rels/document.xml.rels` for the images.
pub open spec fn document_rels_spec(imgs: Seq<(Seq<char>, Seq<u8>)>) -> Seq<char> {
    rels_head() + image_rels(imgs, imgs.len() as int) + "</Relationships>"@
}

/// `word/_rels/document.xml.rels` for the images.
pub fn document_rels(images: &Vec<(String, Vec<u8>)>) -> (r: String)
    ensures
        r@ == document_rels_spec(images_view(images@)),
{
    let ghost iv = images_view(images@);
    let mut r = String::from_str("<?xml version=\"1.0\" encoding=\"UTF-8\" standalone=\"yes\"?><Relationships xmlns=\"http://schemas.openxmlformats.org/package/2006/relationships\"><Relationship Id=\"rId1\" Type=\"http://schemas.openxmlformats.org/officeDocument/2006/relationships/styles\" Target=\"styles.xml\"/><Relationship Id=\"rId2\" Type=\"http://schemas.openxmlformats.org/officeDocument/2006/relationships/settings\" Target=\"settings.xml\"/>");
    let ghost head = r@;
    let mut i: usize = 0;
    while i < images.len()
        invariant
            i <= images.len(),
            iv == images_view(images@),
            r@ == head + image_rels(iv, i as int),
        decreases images.len() - i,
    {
        assert(iv[i as int].0 == images@[i as int].0@);
        let id = &images[i].0;
        let mut t = String::from_str("<Relationship Id=\"");
        t.append(id.as_str());
        t.append("\" Type=\"http://schemas.openxmlformats.org/officeDocument/2006/relationships/image\" Target=\"media/");
        t.append(id.as_str());
        t.append(".png\"/>");
        r.append(t.as_str());
        i += 1;
        assert(r@ =~= head + image_rels(iv, i as int));
    }
    r.append("</Relationships>");
    r
}

/// `_rels/.rels`.
pub open spec fn root_rels_spec() -> Seq<char> {
    "<?xml version=\"1.0\" encoding=\"UTF-8\" standalone=\"yes\"?>\n<Relationships xmlns=\"http://schemas.openxmlformats.org/package/2006/relationships\">\n<Relationship Id=\"rId1\" Type=\"http://schemas.openxmlformats.org/officeDocument/2006/relationships/officeDocument\" Target=\"word/document.xml\"/>\n</Relationships>"@
}

/// `_rels/.rels`.
pub fn root_rels() -> (r: &'static str)
    ensures
        r@ == root_rels_spec(),
{
    "<?xml version=\"1.0\" encoding=\"UTF-8\" standalone=\"yes\"?>\n<Relationships xmlns=\"http://schemas.openxmlformats.org/package/2006/relationships\">\n<Relationship Id=\"rId1\" Type=\"http://schemas.openxmlformats.org/officeDocument/2006/relationships/officeDocument\" Target=\"word/document.xml\"/>\n</Relationships>"
}

/// `word/styles.xml`: Normal and three heading styles.
pub open spec fn styles_spec() -> Seq<char> {
    "<?xml version=\"1.0\" encoding=\"UTF-8\" standalone=\"yes\"?>\n<w:styles xmlns:w=\"http://schemas.openxmlformats.org/wordprocessingml/2006/main\"\n          xmlns:m=\"http://schemas.openxmlformats.org/officeDocument/2006/math\">\n<w:style w:type=\"paragraph\" w:styleId=\"Normal\">\n  <w:name w:val=\"Normal\"/>\n  <w:pPr><w:spacing w:after=\"160\"/></w:pPr>\n  <w:rPr><w:sz w:val=\"24\"/><w:szCs w:val=\"24\"/></w:rPr>\n</w:style>\n<w:style w:type=\"paragraph\" w:styleId=\"Heading1\" w:default=\"0\">\n  <w:name w:val=\"heading 1\"/><w:basedOn w:val=\"Normal\"/>\n  <w:pPr><w:pStyle w:val=\"Heading1\"/><w:spacing w:before=\"240\" w:after=\"60\"/></w:pPr>\n  <w:rPr><w:b/><w:sz w:val=\"40\"/><w:szCs w:val=\"40\"/><w:color w:val=\"2E74B5\"/></w:rPr>\n</w:style>\n<w:style w:type=\"paragraph\" w:styleId=\"Heading2\" w:default=\"0\">\n  <w:name w:val=\"heading 2\"/><w:basedOn w:val=\"Normal\"/>\n  <w:pPr><w:pStyle w:val=\"Heading2\"/><w:spacing w:before=\"200\" w:after=\"40\"/></w:pPr>\n  <w:rPr><w:b/><w:sz w:val=\"32\"/><w:szCs w:val=\"32\"/><w:color w:val=\"2E74B5\"/></w:rPr>\n</w:style>\n<w:style w:type=\"paragraph\" w:styleId=\"Heading3\" w:default=\"0\">\n  <w:name w:val=\"heading 3\"/><w:basedOn w:val=\"Normal\"/>\n  <w:pPr><w:pStyle w:val=\"Heading3\"/><w:spacing w:before=\"160\" w:after=\"40\"/></w:pPr>\n  <w:rPr><w:b/><w:sz w:val=\"28\"/><w:szCs w:val=\"28\"/><w:color w:val=\"2E74B5\"/></w:rPr>\n</w:style>\n</w:styles>"@
}

/// `word/styles.xml`.
pub fn styles_xml() -> (r: &'static str)
    ensures
        r@ == styles_spec(),
{
    "<?xml version=\"1.0\" encoding=\"UTF-8\" standalone=\"yes\"?>\n<w:styles xmlns:w=\"http://schemas.openxmlformats.org/wordprocessingml/2006/main\"\n          xmlns:m=\"http://schemas.openxmlformats.org/officeDocument/2006/math\">\n<w:style w:type=\"paragraph\" w:styleId=\"Normal\">\n  <w:name w:val=\"Normal\"/>\n  <w:pPr><w:spacing w:after=\"160\"/></w:pPr>\n  <w:rPr><w:sz w:val=\"24\"/><w:szCs w:val=\"24\"/></w:rPr>\n</w:style>\n<w:style w:type=\"paragraph\" w:styleId=\"Heading1\" w:default=\"0\">\n  <w:name w:val=\"heading 1\"/><w:basedOn w:val=\"Normal\"/>\n  <w:pPr><w:pStyle w:val=\"Heading1\"/><w:spacing w:before=\"240\" w:after=\"60\"/></w:pPr>\n  <w:rPr><w:b/><w:sz w:val=\"40\"/><w:szCs w:val=\"40\"/><w:color w:val=\"2E74B5\"/></w:rPr>\n</w:style>\n<w:style w:type=\"paragraph\" w:styleId=\"Heading2\" w:default=\"0\">\n  <w:name w:val=\"heading 2\"/><w:basedOn w:val=\"Normal\"/>\n  <w:pPr><w:pStyle w:val=\"Heading2\"/><w:spacing w:before=\"200\" w:after=\"40\"/></w:pPr>\n  <w:rPr><w:b/><w:sz w:val=\"32\"/><w:szCs w:val=\"32\"/><w:color w:val=\"2E74B5\"/></w:rPr>\n</w:style>\n<w:style w:type=\"paragraph\" w:styleId=\"Heading3\" w:default=\"0\">\n  <w:name w:val=\"heading 3\"/><w:basedOn w:val=\"Normal\"/>\n  <w:pPr><w:pStyle w:val=\"Heading3\"/><w:spacing w:before=\"160\" w:after=\"40\"/></w:pPr>\n  <w:rPr><w:b/><w:sz w:val=\"28\"/><w:szCs w:val=\"28\"/><w:color w:val=\"2E74B5\"/></w:rPr>\n</w:style>\n</w:styles>"
}

/// `word/settings.xml`.
pub open spec fn settings_spec() -> Seq<char> {
    "<?xml version=\"1.0\" encoding=\"UTF-8\" standalone=\"yes\"?>\n<w:settings xmlns:w=\"http://schemas.openxmlformats.org/wordprocessingml/2006/main\">\n<w:compat><w:compatSetting w:name=\"compatibilityMode\" w:uri=\"http://schemas.microsoft.com/office/word\" w:val=\"15\"/></w:compat>\n</w:settings>"@
}

/// `word/settings.xml`.
pub fn settings_xml() -> (r: &'static str)
    ensures
        r@ == settings_spec(),
{
    "<?xml version=\"1.0\" encoding=\"UTF-8\" standalone=\"yes\"?>\n<w:settings xmlns:w=\"http://schemas.openxmlformats.org/wordprocessingml/2006/main\">\n<w:compat><w:compatSetting w:name=\"compatibilityMode\" w:uri=\"http://schemas.microsoft.com/office/word\" w:val=\"15\"/></w:compat>\n</w:settings>"
}

}

verus! {

// ───────────────────────────── The ZIP package ─────────────────────────────

/// A ZIP archive being written into memory (a `zip::ZipWriter` over a
/// `std::io::Cursor<Vec<u8>>`).
#[verifier::external_body]
pub struct ZipPackage {
    inner: zip::ZipWriter<std::io::Cursor<Vec<u8>>>,
}

#[verifier::external_type_specification]
#[verifier::external_body]
pub struct ExZipError(zip::result::ZipError);

#[verifier::external_type_specification]
#[verifier::external_body]
pub struct ExIoError(std::io::Error);

/// The entries that a ZIP writer holds so far, in the order they were
/// started: each entry's name and the (uncompressed) bytes written to it.
pub uninterp spec fn zip_entries(w: ZipPackage) -> Seq<(Seq<char>, Seq<u8>)>;

/// Whether a ZIP writer has an entry open for writing
/// (`zip::ZipWriter::is_writing_file`).
pub uninterp spec fn zip_writing(w: ZipPackage) -> bool;

/// The entries that zip's reader finds in the bytes of an archive, in the
/// order of its central directory: each entry's name and its uncompressed
/// bytes.
pub uninterp spec fn archive_entries(bytes: Seq<u8>) -> Seq<(Seq<char>, Seq<u8>)>;

/// An upper bound on the bytes that an entry takes in an archive: its name
/// (at most four bytes a character, in the local and the central header),
/// its data, and room for both headers and for Deflate's stored blocks.
pub open spec fn entry_load(e: (Seq<char>, Seq<u8>)) -> int {
    (8 * e.0.len() + e.1.len() + e.1.len() / 1024 + 256) as int
}

/// The sum of [`entry_load`] over the entries.
pub open spec fn entries_load(es: Seq<(Seq<char>, Seq<u8>)>) -> int
    decreases es.len(),
{
    if es.len() == 0 {
        0
    } else {
        entries_load(es.drop_last()) + entry_load(es.last())
    }
}

/// An archive of these entries stays well below the 4 GiB at which zip
/// needs its large-file (ZIP64) sizes, which this writer does not ask for.
pub open spec fn small_archive(es: Seq<(Seq<char>, Seq<u8>)>) -> bool {
    entries_load(es) < 0x8000_0000
}

/// A name that fits a local header (zip refuses a header of 64 KiB or more).
pub open spec fn short_name(name: Seq<char>) -> bool {
    4 * name.len() + 30 < 65535
}

/// `zip::ZipWriter::new` over an empty in-memory buffer
/// (`std::io::Cursor::new(Vec::new())`): a writer that holds no entries yet
/// and has none open.
#[verifier::external_body]
fn zip_writer_new() -> (w: ZipPackage)
    ensures
        zip_entries(w) == Seq::<(Seq<char>, Seq<u8>)>::empty(),
        !zip_writing(w),
{
    ZipPackage { inner: zip::ZipWriter::new(std::io::Cursor::new(Vec::new())) }
}

/// `zip::ZipWriter::start_file` with Deflate compression. On success a new
/// entry with the given name and no content yet follows the earlier ones,
/// and is open for writing. Writing into memory cannot fail, so zip refuses
/// only a name that is already taken, a name too long for a header, or
/// (when it closes the entry open before) an entry of 4 GiB or more: on a
/// writer that is new or has an entry open, it succeeds on a fresh, short
/// name while the archive stays small. What the writer holds after a
/// failure is left unsaid, and so is success on such a writer.
#[verifier::external_body]
fn zip_start_file(w: &mut ZipPackage, name: &str) -> (r: Result<(), zip::result::ZipError>)
    ensures
        r is Ok ==> zip_entries(*final(w)) == zip_entries(*old(w)).push((name@, Seq::<u8>::empty())),
        r is Ok ==> zip_writing(*final(w)),
        (zip_writing(*old(w)) || zip_entries(*old(w)).len() == 0) && (forall|k: int|
            0 <= k < zip_entries(*old(w)).len() ==> #[trigger] zip_entries(*old(w))[k].0 != name@)
            && short_name(name@)
            && small_archive(zip_entries(*old(w)).push((name@, Seq::<u8>::empty()))) ==> r is Ok,
{
    let opts = zip::write::SimpleFileOptions::default().compression_method(zip::CompressionMethod::Deflated);
    w.inner.start_file(name, opts)
}

/// `std::io::Write::write_all` on a `zip::ZipWriter`: on success the bytes
/// are appended to the entry that was started last (writing nothing leaves
/// the writer as it was), which stays open. zip refuses a write only when
/// no entry is open or when the open entry reaches 4 GiB
/// (`ZIP64_BYTES_THR`). What the writer holds after a failure is left
/// unsaid.
#[verifier::external_body]
fn zip_write_all(w: &mut ZipPackage, data: &[u8]) -> (r: Result<(), std::io::Error>)
    ensures
        r is Ok ==> {
            let e = zip_entries(*old(w));
            ||| data@.len() == 0 && zip_entries(*final(w)) == e
            ||| e.len() > 0 && zip_entries(*final(w)) == e.update(e.len() - 1, (e.last().0, e.last().1 + data@))
        },
        r is Ok ==> zip_writing(*final(w)) == zip_writing(*old(w)),
        zip_writing(*old(w)) && zip_entries(*old(w)).len() > 0 && zip_entries(*old(w)).last().1.len() + data@.len()
            < 0xFFFF_FFFF ==> r is Ok,
{
    std::io::Write::write_all(&mut w.inner, data)
}

/// `zip::ZipWriter::finish`, then `std::io::Cursor::into_inner`: the bytes of
/// the finished archive, in which zip's reader finds the writer's entries.
/// On a writer that is new or has an entry open, it succeeds while the
/// archive stays small. The bytes themselves are not
/// stated: the archive records the time at which each entry was written.
#[verifier::external_body]
fn zip_finish(w: ZipPackage) -> (r: Result<Vec<u8>, zip::result::ZipError>)
    ensures
        (zip_writing(w) || zip_entries(w).len() == 0) && small_archive(zip_entries(w)) ==> r is Ok,
        r is Ok ==> archive_entries(r->Ok_0@) == zip_entries(w),
{
    match w.inner.finish() {
        Ok(c) => Ok(c.into_inner()),
        Err(e) => Err(e),
    }
}

/// Why a package could not be written.
#[derive(Debug, PartialEq, Eq, Structural)]
pub enum DocxError {
    /// The archive refused an entry or could not be finished.
    Archive,
    /// Bytes could not be written into an entry.
    Write,
}

pub open spec fn parts_view(v: Seq<(String, Vec<u8>)>) -> Seq<(Seq<char>, Seq<u8>)> {
    v.map_values(|e: (String, Vec<u8>)| (e.0@, e.1@))
}

/// Names that are all different, none taken by an entry already in the
/// archive, and each short enough for a header.
pub open spec fn fresh_names(old: Seq<(Seq<char>, Seq<u8>)>, ps: Seq<(Seq<char>, Seq<u8>)>) -> bool {
    &&& forall|i: int, j: int| 0 <= i < j < ps.len() ==> (#[trigger] ps[i]).0 != (#[trigger] ps[j]).0
    &&& forall|i: int, k: int| 0 <= i < ps.len() && 0 <= k < old.len() ==> (#[trigger] ps[i]).0 != (#[trigger] old[k]).0
    &&& forall|i: int| 0 <= i < ps.len() ==> short_name(#[trigger] ps[i].0)
}

proof fn lemma_load_nonneg(es: Seq<(Seq<char>, Seq<u8>)>)
    ensures
        entries_load(es) >= 0,
    decreases es.len(),
{
    if es.len() > 0 {
        lemma_load_nonneg(es.drop_last());
    }
}

/// The load of a concatenation is the sum of the loads.
proof fn lemma_load_concat(a: Seq<(Seq<char>, Seq<u8>)>, b: Seq<(Seq<char>, Seq<u8>)>)
    ensures
        entries_load(a + b) == entries_load(a) + entries_load(b),
    decreases b.len(),
{
    if b.len() == 0 {
        assert(a + b =~= a);
    } else {
        lemma_load_concat(a, b.drop_last());
        assert((a + b).drop_last() =~= a + b.drop_last());
        assert((a + b).last() == b.last());
    }
}

/// Under the premise of [`write_parts`], the next part's name is fresh
/// among the entries written so far, the archive stays small with it, and
/// its data stays below the 4 GiB of an entry.
proof fn lemma_next_part_fits(start: Seq<(Seq<char>, Seq<u8>)>, pv: Seq<(Seq<char>, Seq<u8>)>, i: int)
    requires
        fresh_names(start, pv),
        small_archive(start + pv),
        0 <= i < pv.len(),
    ensures
        forall|k: int| 0 <= k < (start + pv.take(i)).len() ==> #[trigger] (start + pv.take(i))[k].0 != pv[i].0,
        short_name(pv[i].0),
        small_archive((start + pv.take(i)).push((pv[i].0, Seq::<u8>::empty()))),
        pv[i].1.len() < 0xFFFF_FFFF,
{
    let cur = start + pv.take(i);
    let nxt = start + pv.take(i + 1);
    assert forall|k: int| 0 <= k < cur.len() implies #[trigger] cur[k].0 != pv[i].0 by {
        if k < start.len() {
            assert(cur[k] == start[k]);
        } else {
            assert(cur[k] == pv[k - start.len()]);
        }
    }
    assert(nxt + pv.skip(i + 1) =~= start + pv);
    lemma_load_concat(nxt, pv.skip(i + 1));
    lemma_load_nonneg(pv.skip(i + 1));
    lemma_load_nonneg(cur);
    assert(nxt.drop_last() =~= cur);
    assert(nxt.last() == pv[i]);
    let e = (pv[i].0, Seq::<u8>::empty());
    assert(cur.push(e).drop_last() =~= cur);
    assert(entries_load(cur.push(e)) == entries_load(cur) + entry_load(e));
}

/// Writes the parts, in order, as entries of the archive. It succeeds when
/// their names are fresh and the archive stays small.
pub fn write_parts(w: &mut ZipPackage, parts: &Vec<(String, Vec<u8>)>) -> (r: Result<(), DocxError>)
    ensures
        r is Ok ==> zip_entries(*final(w)) == zip_entries(*old(w)) + parts_view(parts@),
        r is Ok && parts@.len() > 0 ==> zip_writing(*final(w)),
        (zip_writing(*old(w)) || zip_entries(*old(w)).len() == 0) && fresh_names(
            zip_entries(*old(w)),
            parts_view(parts@),
        ) && small_archive(zip_entries(*old(w)) + parts_view(parts@)) ==> r is Ok,
{
    let ghost start = zip_entries(*w);
    let ghost pv = parts_view(parts@);
    let ghost good = (zip_writing(*w) || start.len() == 0) && fresh_names(start, pv) && small_archive(start + pv);
    proof {
        lemma_load_concat(start, pv);
        lemma_load_nonneg(start);
        lemma_load_nonneg(pv);
    }
    let mut i: usize = 0;
    while i < parts.len()
        invariant
            i <= parts.len(),
            pv == parts_view(parts@),
            start == zip_entries(*old(w)),
            good == ((zip_writing(*old(w)) || start.len() == 0) && fresh_names(start, pv) && small_archive(
                start + pv,
            )),
            i == 0 ==> *w == *old(w),
            entries_load(start + pv) == entries_load(start) + entries_load(pv),
            entries_load(start) >= 0,
            zip_entries(*w) == start + pv.take(i as int),
            i > 0 ==> zip_writing(*w),
        decreases parts.len() - i,
    {
        let ghost before = zip_entries(*w);
        let name = &parts[i].0;
        let data = &parts[i].1;
        assert(pv[i as int] == (name@, data@));
        proof {
            if good {
                lemma_next_part_fits(start, pv, i as int);
            }
        }
        match zip_start_file(w, name.as_str()) {
            Ok(()) => {},
            Err(_) => {
                return Err(DocxError::Archive);
            },
        }
        let ghost mid = zip_entries(*w);
        assert(mid == before.push((name@, Seq::<u8>::empty())));
        match zip_write_all(w, data.as_slice()) {
            Ok(()) => {},
            Err(_) => {
                return Err(DocxError::Write);
            },
        }
        assert(Seq::<u8>::empty() + data@ =~= data@);
        assert(zip_entries(*w) == before.push((name@, data@)));
        i += 1;
        assert(pv.take(i as int) =~= pv.take(i - 1).push((name@, data@)));
        assert(start + pv.take(i as int) =~= before.push((name@, data@)));
    }
    assert(pv.take(i as int) =~= pv);
    Ok(())
}

}

verus! {

/// The name of the archive entry that holds the image with relationship id `id`.
pub open spec fn media_name(id: Seq<char>) -> Seq<char> {
    "word/media/"@ + id + ".png"@
}

/// The entries of the package, in the order they are written: the five
/// XML parts, then one PNG entry per image.
pub open spec fn package_parts(ps: Seq<SPara>, imgs: Seq<(Seq<char>, Seq<u8>)>) -> Seq<(Seq<char>, Seq<u8>)> {
    seq![
        ("[Content_Types].xml"@, encode_utf8(content_types_spec(imgs.len() as int))),
        ("_rels/.rels"@, encode_utf8(root_rels_spec())),
        ("word/_rels/document.xml.rels"@, encode_utf8(document_rels_spec(imgs))),
        ("word/document.xml"@, encode_utf8(document_xml(ps))),
        ("word/styles.xml"@, encode_utf8(styles_spec())),
        ("word/settings.xml"@, encode_utf8(settings_spec())),
    ] + imgs.map_values(|e: (Seq<char>, Seq<u8>)| (media_name(e.0), e.1))
}

fn text_part(name: &str, text: &str) -> (r: (String, Vec<u8>))
    ensures
        r.0@ == name@,
        r.1@ == encode_utf8(text@),
{
    (String::from_str(name), slice_to_vec(text.as_bytes()))
}

impl DocxBuilder {
    /// The entries of the package for this document (see [`package_parts`]).
    pub fn parts(&self) -> (r: Vec<(String, Vec<u8>)>)
        requires
            self.imgs().len() + 10 <= usize::MAX,
        ensures
            parts_view(r@) == package_parts(self.paras(), self.imgs()),
    {
        let ghost ps = self.paras();
        let ghost iv = self.imgs();
        let mut r: Vec<(String, Vec<u8>)> = Vec::new();
        let ct = content_types(self.images.len());
        r.push(text_part("[Content_Types].xml", ct.as_str()));
        r.push(text_part("_rels/.rels", root_rels()));
        let dr = document_rels(&self.images);
        r.push(text_part("word/_rels/document.xml.rels", dr.as_str()));
        let doc = build_document(&self.paragraphs);
        r.push(text_part("word/document.xml", doc.as_str()));
        r.push(text_part("word/styles.xml", styles_xml()));
        r.push(text_part("word/settings.xml", settings_xml()));
        let ghost head = parts_view(r@);
        let ghost tail = iv.map_values(|e: (Seq<char>, Seq<u8>)| (media_name(e.0), e.1));
        assert(head =~= package_parts(ps, iv).take(6));
        let mut i: usize = 0;
        while i < self.images.len()
            invariant
                i <= self.images.len(),
                iv == images_view(self.images@),
                tail == iv.map_values(|e: (Seq<char>, Seq<u8>)| (media_name(e.0), e.1)),
                parts_view(r@) == head + tail.take(i as int),
            decreases self.images.len() - i,
        {
            let id = &self.images[i].0;
            let png = &self.images[i].1;
            let mut name = String::from_str("word/media/");
            name.append(id.as_str());
            name.append(".png");
            let bytes = slice_to_vec(png.as_slice());
            let ghost before = r@;
            r.push((name, bytes));
            assert(tail[i as int] == (media_name(id@), png@));
            assert(parts_view(r@) =~= parts_view(before).push(tail[i as int]));
            i += 1;
            assert(tail.take(i as int) =~= tail.take(i - 1).push(tail[i - 1]));
        }
        assert(tail.take(i as int) =~= tail);
        assert(package_parts(ps, iv) =~= head + tail);
        r
    }

    /// Writes the package into a new in-memory archive: on success the
    /// archive holds exactly [`package_parts`], in order. The part names
    /// are all different and short, so it succeeds whenever the archive
    /// stays small.
    pub fn write_package(&self) -> (r: Result<ZipPackage, DocxError>)
        requires
            self.imgs().len() + 10 <= usize::MAX,
        ensures
            r is Ok ==> zip_entries(r->Ok_0) == package_parts(self.paras(), self.imgs()),
            r is Ok ==> zip_writing(r->Ok_0),
            small_archive(package_parts(self.paras(), self.imgs())) ==> r is Ok,
    {
        proof {
            use_type_invariant(self);
            lemma_package_names_fresh(self.paras(), self.imgs());
        }
        let parts = self.parts();
        let mut w = zip_writer_new();
        assert(Seq::<(Seq<char>, Seq<u8>)>::empty() + parts_view(parts@) =~= parts_view(parts@));
        match write_parts(&mut w, &parts) {
            Ok(()) => {},
            Err(e) => {
                return Err(e);
            },
        }
        Ok(w)
    }

    /// The bytes of the `.docx` file: the package of [`write_package`],
    /// finished, in which zip's reader finds exactly [`package_parts`]. It
    /// succeeds whenever the archive stays small.
    pub fn build(self) -> (r: Result<Vec<u8>, DocxError>)
        requires
            self.imgs().len() + 10 <= usize::MAX,
        ensures
            small_archive(package_parts(self.paras(), self.imgs())) ==> r is Ok,
            r is Ok ==> archive_entries(r->Ok_0@) == package_parts(self.paras(), self.imgs()),
    {
        let w = match self.write_package() {
            Ok(w) => w,
            Err(e) => {
                return Err(e);
            },
        };
        match zip_finish(w) {
            Ok(bytes) => Ok(bytes),
            Err(_) => Err(DocxError::Archive),
        }
    }
}

}

verus! {

pub open spec fn pow10(k: nat) -> nat
    decreases k,
{
    if k == 0 {
        1
    } else {
        10 * pow10((k - 1) as nat)
    }
}

/// A number below `10^k` has at most `k` digits.
proof fn lemma_dec_len_le(n: nat, k: nat)
    requires
        k >= 1,
        n < pow10(k),
    ensures
        dec_spec(n).len() <= k,
    decreases k,
{
    if n >= 10 {
        if k == 1 {
            assert(pow10(1) == 10) by {
                reveal_with_fuel(pow10, 2);
            }
        } else {
            let p = pow10((k - 1) as nat);
            assert(n / 10 < p) by (nonlinear_arith)
                requires
                    n < 10 * p,
            ;
            lemma_dec_len_le(n / 10, (k - 1) as nat);
        }
    }
}

/// The names of the package's parts are all different and short: the
/// five XML part names are fixed, and the media names carry the images'
/// distinct ids.
proof fn lemma_package_names_fresh(ps: Seq<SPara>, imgs: Seq<(Seq<char>, Seq<u8>)>)
    requires
        images_in_step(ps, imgs),
        imgs.len() + 10 <= usize::MAX,
    ensures
        fresh_names(Seq::empty(), package_parts(ps, imgs)),
{
    let pp = package_parts(ps, imgs);
    reveal_strlit("[Content_Types].xml");
    reveal_strlit("_rels/.rels");
    reveal_strlit("word/_rels/document.xml.rels");
    reveal_strlit("word/document.xml");
    reveal_strlit("word/styles.xml");
    reveal_strlit("word/settings.xml");
    reveal_strlit("word/media/");
    reveal_strlit(".png");
    reveal_strlit("rId");
    assert(pow10(20) == 100000000000000000000) by {
        reveal_with_fuel(pow10, 21);
    }
    // the media names
    assert forall|k: int| 0 <= k < imgs.len() implies {
        let m = #[trigger] media_name(imgs[k].0);
        &&& m.len() >= 6 && m[0] == 'w' && m[5] == 'm'
        &&& short_name(m)
        &&& m == media_name(image_id(k))
    } by {
        assert(imgs[k].0 == image_id(k));
        lemma_dec_len_le((k + 10) as nat, 20);
    }
    assert forall|i: int, j: int| 0 <= i < j < imgs.len() implies media_name(imgs[i].0) != media_name(
        imgs[j].0,
    ) by {
        assert(imgs[i].0 == image_id(i));
        assert(imgs[j].0 == image_id(j));
        law_image_ids_distinct(i, j);
        let a = media_name(image_id(i));
        let b = media_name(image_id(j));
        if a == b {
            assert(a.subrange(11, a.len() - 4) =~= image_id(i));
            assert(b.subrange(11, b.len() - 4) =~= image_id(j));
        }
    }
    assert forall|i: int| 0 <= i < pp.len() implies short_name(#[trigger] pp[i].0) by {
        if i >= 6 {
            assert(pp[i] == (media_name(imgs[i - 6].0), imgs[i - 6].1));
        }
    }
    assert forall|i: int, j: int| 0 <= i < j < pp.len() implies (#[trigger] pp[i]).0 != (#[trigger] pp[j]).0 by {
        if j >= 6 {
            assert(pp[j] == (media_name(imgs[j - 6].0), imgs[j - 6].1));
            if i >= 6 {
                assert(pp[i] == (media_name(imgs[i - 6].0), imgs[i - 6].1));
            } else {
                let m = media_name(imgs[j - 6].0);
                assert(m[0] == 'w' && m[5] == 'm');
            }
        } else {
            let names = seq![
                "[Content_Types].xml"@,
                "_rels/.rels"@,
                "word/_rels/document.xml.rels"@,
                "word/document.xml"@,
                "word/styles.xml"@,
                "word/settings.xml"@,
            ];
            assert(pp[i].0 == names[i] && pp[j].0 == names[j]);
            if names[i] == names[j] {
                assert(names[i].len() == names[j].len());
                assert(names[i][5] == names[j][5]);
                assert(names[i][0] == names[j][0]);
            }
        }
    }
}

}

verus! {

proof fn lemma_dec_len(n: nat)
    ensures
        dec_spec(n).len() >= 1,
        n >= 10 ==> dec_spec(n).len() >= 2,
    decreases n,
{
    if n >= 10 {
        lemma_dec_len(n / 10);
    }
}

/// Different numbers have different decimal texts.
proof fn lemma_dec_injective(a: nat, b: nat)
    requires
        dec_spec(a) == dec_spec(b),
    ensures
        a == b,
    decreases a,
{
    lemma_dec_len(a);
    lemma_dec_len(b);
    if a < 10 && b < 10 {
        let ca = dec_spec(a)[0];
        let cb = dec_spec(b)[0];
        assert(ca == (a + '0' as nat) as char);
        assert(cb == (b + '0' as nat) as char);
        assert(ca == cb);
        assert(ca as u32 == a + 48);
        assert(cb as u32 == b + 48);
    } else if a >= 10 && b >= 10 {
        let da = dec_spec(a);
        let db = dec_spec(b);
        assert(da.last() == db.last());
        assert((((a % 10) + '0' as nat) as char) as u32 == (a % 10) + 48);
        assert((((b % 10) + '0' as nat) as char) as u32 == (b % 10) + 48);
        assert(da.drop_last() =~= dec_spec(a / 10));
        assert(db.drop_last() =~= dec_spec(b / 10));
        lemma_dec_injective(a / 10, b / 10);
        assert(a % 10 == b % 10);
        assert(a == b);
    } else {
        assert(dec_spec(a).len() != dec_spec(b).len());
    }
}

/// Each image of a document gets a relationship id of its own, so every
/// image part and every reference to it is unambiguous.
pub proof fn law_image_ids_distinct(i: int, j: int)
    requires
        0 <= i,
        0 <= j,
        i != j,
    ensures
        image_id(i) != image_id(j),
{
    reveal_strlit("rId");
    if image_id(i) == image_id(j) {
        let a = dec_spec((i + 10) as nat);
        let b = dec_spec((j + 10) as nat);
        assert(image_id(i).skip(3) =~= a);
        assert(image_id(j).skip(3) =~= b);
        lemma_dec_injective((i + 10) as nat, (j + 10) as nat);
    }
}

/// Every image added to a document is written into the package, under
/// `word/media/` and its id, with its bytes unchanged, after the XML parts.
pub proof fn law_images_are_packaged(ps: Seq<SPara>, imgs: Seq<(Seq<char>, Seq<u8>)>, k: int)
    requires
        0 <= k < imgs.len(),
    ensures
        package_parts(ps, imgs).len() == 6 + imgs.len(),
        package_parts(ps, imgs)[6 + k] == (media_name(imgs[k].0), imgs[k].1),
{
}

}

verus! {

/// The relationship ids of the image paragraphs, in order.
pub open spec fn image_para_ids(ps: Seq<SPara>) -> Seq<Seq<char>>
    decreases ps.len(),
{
    if ps.len() == 0 {
        Seq::empty()
    } else {
        image_para_ids(ps.drop_last()) + if ps.last() is Image {
            seq![ps.last()->Image_0]
        } else {
            Seq::empty()
        }
    }
}

/// The images are numbered from `rId10` on, and the image paragraphs refer
/// to them one to one, in the same order.
pub open spec fn images_in_step(ps: Seq<SPara>, imgs: Seq<(Seq<char>, Seq<u8>)>) -> bool {
    &&& forall|k: int| 0 <= k < imgs.len() ==> (#[trigger] imgs[k]).0 == image_id(k)
    &&& image_para_ids(ps) == imgs.map_values(|e: (Seq<char>, Seq<u8>)| e.0)
}

/// Building a document keeps its images and its image paragraphs in step:
/// an empty document is, a heading, text or math paragraph leaves the
/// images alone, and an image adds its paragraph and its part together.
pub proof fn law_builder_keeps_images_in_step(
    ps: Seq<SPara>,
    imgs: Seq<(Seq<char>, Seq<u8>)>,
    p: SPara,
    png: Seq<u8>,
    w: u32,
    h: u32,
)
    ensures
        images_in_step(Seq::empty(), Seq::empty()),
        images_in_step(ps, imgs) && !(p is Image) ==> images_in_step(ps.push(p), imgs),
        images_in_step(ps, imgs) ==> images_in_step(
            ps.push(SPara::Image(image_id(imgs.len() as int), w, h)),
            imgs.push((image_id(imgs.len() as int), png)),
        ),
{
    let e = Seq::<(Seq<char>, Seq<u8>)>::empty();
    assert(e.map_values(|e: (Seq<char>, Seq<u8>)| e.0) =~= Seq::<Seq<char>>::empty());
    assert(ps.push(p).drop_last() =~= ps);
    let q = SPara::Image(image_id(imgs.len() as int), w, h);
    assert(ps.push(q).drop_last() =~= ps);
    let imgs2 = imgs.push((image_id(imgs.len() as int), png));
    assert(imgs2.map_values(|e: (Seq<char>, Seq<u8>)| e.0) =~= imgs.map_values(|e: (Seq<char>, Seq<u8>)| e.0).push(
        image_id(imgs.len() as int),
    ));
    if images_in_step(ps, imgs) && !(p is Image) {
        assert(image_para_ids(ps.push(p)) =~= image_para_ids(ps));
    }
    if images_in_step(ps, imgs) {
        assert(image_para_ids(ps.push(q)) =~= image_para_ids(ps).push(image_id(imgs.len() as int)));
        assert forall|k: int| 0 <= k < imgs2.len() implies (#[trigger] imgs2[k]).0 == image_id(k) by {
            if k < imgs.len() {
                assert(imgs2[k] == imgs[k]);
            }
        }
    }
}

}
