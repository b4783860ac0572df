use vstd::prelude::*;

use crate::documento::Documento;
use crate::documento::Marcador;
use crate::documento::clona_bytes;
use crate::documento::ids_de;
use crate::documento::renumerar;
use crate::documento::busca_tabla;
use crate::documento::g_busca_tab;
use crate::documento::vtab;
use crate::objeto::Clase;
use crate::objeto::IdObjeto;
use crate::objeto::MObjeto;
use crate::objeto::Objeto;
use crate::objeto::aplica;
use crate::objeto::busca_id;
use crate::objeto::clase_de;
use crate::objeto::clase_objeto;
use crate::objeto::clona_entradas;
use crate::objeto::g_busca;
use crate::objeto::g_pone;
use crate::objeto::g_quita;
use crate::objeto::indice_de;
use crate::objeto::lema_busca_en;
use crate::objeto::lema_indice_en;
use crate::objeto::lema_reescribe_dic_entero;
use crate::objeto::lema_vo_variante_nombre;
use crate::objeto::mapa_renum;
use crate::objeto::pone;
use crate::objeto::quita;
use crate::objeto::reescribe_dic;
use crate::objeto::reescribe_modelo;
use crate::objeto::vdic;
use crate::objeto::vo;

verus! {

/// Fallo estructural de la union: falta la raiz del arbol de paginas o
/// falta el catalogo. Ambos son fatales y no se emite salida alguna.
#[derive(Clone, Copy, PartialEq, Eq, Structural, Debug)]
pub enum ErrorUnion {
    SinRaizPaginas,
    SinCatalogo,
}

/// Resultado de la union: el documento unido, su numero de paginas y
/// su numero de marcadores.
pub struct Unido {
    pub documento: Documento,
    pub paginas: u32,
    pub marcadores: u32,
}

/// Pliega las entradas de un diccionario viejo sobre uno nuevo, de la
/// primera a la ultima: el valor del viejo gana en cada clave comun y
/// sus claves nuevas se anaden al final.
pub open spec fn g_fusion(
    n: Seq<(Seq<char>, MObjeto)>,
    v: Seq<(Seq<char>, MObjeto)>,
) -> Seq<(Seq<char>, MObjeto)>
    decreases v.len(),
{
    if v.len() == 0 {
        n
    } else {
        g_pone(g_fusion(n, v.drop_last()), v.last().0, v.last().1)
    }
}

/// Primer objeto con papel de catalogo de la tabla: identificador y
/// entradas. Solo los atributos del primero sobreviven.
pub open spec fn g_catalogo(t: Seq<(IdObjeto, MObjeto)>) -> Option<
    (IdObjeto, Seq<(Seq<char>, MObjeto)>),
>
    decreases t.len(),
{
    if t.len() == 0 {
        None
    } else {
        let previo = g_catalogo(t.drop_last());
        if previo is Some {
            previo
        } else if clase_de(t.last().1) == Clase::Catalogo {
            Some((t.last().0, t.last().1->Diccionario_0))
        } else {
            None
        }
    }
}

/// Raiz de paginas unida: el identificador del primer objeto con papel
/// de raiz de paginas, y sus entradas con las de cada raiz posterior
/// plegadas de modo que el campo visto antes gana.
pub open spec fn g_paginas(t: Seq<(IdObjeto, MObjeto)>) -> Option<
    (IdObjeto, Seq<(Seq<char>, MObjeto)>),
>
    decreases t.len(),
{
    if t.len() == 0 {
        None
    } else {
        let previo = g_paginas(t.drop_last());
        if clase_de(t.last().1) != Clase::Paginas {
            previo
        } else {
            match previo {
                None => Some((t.last().0, t.last().1->Diccionario_0)),
                Some((id0, d0)) => Some((id0, g_fusion(t.last().1->Diccionario_0, d0))),
            }
        }
    }
}

/// Primer identificador de la union de tablas asignado al documento `i`.
pub open spec fn g_inicio(docs: Seq<Documento>, i: int) -> int
    decreases i,
{
    if i <= 0 {
        1
    } else {
        g_inicio(docs, i - 1) + docs[i - 1].objetos@.len()
    }
}

/// Tabla del documento tras renumerarlo desde `inicio`.
pub open spec fn g_tabla_renum(d: Documento, inicio: int) -> Seq<(IdObjeto, MObjeto)> {
    Seq::new(
        d.objetos@.len(),
        |j: int|
            (
                IdObjeto { num: (inicio + j) as u32, gen: d.objetos@[j].0.gen },
                reescribe_modelo(vo(d.objetos@[j].1), mapa_renum(ids_de(d.objetos@), inicio)),
            ),
    )
}

/// Orden de paginas del documento tras renumerarlo desde `inicio`.
pub open spec fn g_orden_renum(d: Documento, inicio: int) -> Seq<IdObjeto> {
    Seq::new(
        d.orden_paginas@.len(),
        |k: int| aplica(mapa_renum(ids_de(d.objetos@), inicio), d.orden_paginas@[k]),
    )
}

/// Union de las tablas de los primeros `i` documentos renumerados.
pub open spec fn g_tabla_total(docs: Seq<Documento>, i: int) -> Seq<(IdObjeto, MObjeto)>
    decreases i,
{
    if i <= 0 {
        Seq::empty()
    } else {
        g_tabla_total(docs, i - 1) + g_tabla_renum(docs[i - 1], g_inicio(docs, i - 1))
    }
}

/// Orden de lectura unido: las paginas de cada documento, en su orden,
/// documento tras documento segun la lista de entrada.
pub open spec fn g_orden_total(docs: Seq<Documento>, i: int) -> Seq<IdObjeto>
    decreases i,
{
    if i <= 0 {
        Seq::empty()
    } else {
        g_orden_total(docs, i - 1) + g_orden_renum(docs[i - 1], g_inicio(docs, i - 1))
    }
}

/// Suma de los numeros de paginas de los primeros `i` documentos.
pub open spec fn g_suma_paginas(docs: Seq<Documento>, i: int) -> int
    decreases i,
{
    if i <= 0 {
        0
    } else {
        g_suma_paginas(docs, i - 1) + docs[i - 1].orden_paginas@.len()
    }
}

/// Digitos decimales de un numero, en bytes.
pub open spec fn dec_digitos(n: int) -> Seq<u8>
    decreases n,
{
    if n <= 9 {
        seq![(48 + if n >= 0 { n } else { 0 }) as u8]
    } else {
        dec_digitos(n / 10).push((48 + n % 10) as u8)
    }
}

/// Titulo del marcador de un documento: `Page_` y el indice decimal.
pub open spec fn espec_titulo(n: int) -> Seq<u8> {
    seq![80u8, 97u8, 103u8, 101u8, 95u8] + dec_digitos(n)
}

/// Marcadores recogidos de los primeros `i` documentos: un titulo
/// `Page_<indice>` por documento con alguna pagina, apuntando a su
/// primera pagina ya renumerada.
pub open spec fn g_marcas(docs: Seq<Documento>, i: int) -> Seq<(Seq<u8>, IdObjeto)>
    decreases i,
{
    if i <= 0 {
        Seq::empty()
    } else {
        let previo = g_marcas(docs, i - 1);
        if docs[i - 1].orden_paginas@.len() == 0 {
            previo
        } else {
            previo.push(
                (
                    espec_titulo(previo.len() as int + 1),
                    g_orden_renum(docs[i - 1], g_inicio(docs, i - 1))[0],
                ),
            )
        }
    }
}

/// Digitos decimales de un numero.
pub fn dec_u32(n: u32) -> (r: Vec<u8>)
    ensures
        r@ == dec_digitos(n as int),
    decreases n,
{
    if n <= 9 {
        let mut v: Vec<u8> = Vec::new();
        v.push(48u8 + (n as u8));
        proof {
            assert(v@ =~= dec_digitos(n as int));
        }
        v
    } else {
        let mut v = dec_u32(n / 10);
        v.push(48u8 + ((n % 10) as u8));
        v
    }
}

/// Titulo del marcador `Page_<n>`.
pub fn titulo_pagina(n: u32) -> (r: Vec<u8>)
    ensures
        r@ == espec_titulo(n as int),
{
    let mut t: Vec<u8> = Vec::new();
    t.push(80u8);
    t.push(97u8);
    t.push(103u8);
    t.push(101u8);
    t.push(95u8);
    let mut d = dec_u32(n);
    t.append(&mut d);
    proof {
        assert(t@ =~= espec_titulo(n as int));
    }
    t
}

/// Pliega un diccionario viejo sobre uno nuevo: el viejo gana.
pub fn fusiona(nueva: Vec<(String, Objeto)>, vieja: &Vec<(String, Objeto)>) -> (r: Vec<
    (String, Objeto),
>)
    ensures
        vdic(r@) == g_fusion(vdic(nueva@), vdic(vieja@)),
{
    let ghost n0 = vdic(nueva@);
    let mut acc = nueva;
    let mut i: usize = 0;
    while i < vieja.len()
        invariant
            0 <= i <= vieja@.len(),
            vdic(acc@) == g_fusion(n0, vdic(vieja@).subrange(0, i as int)),
        decreases vieja@.len() - i,
    {
        let ghost pre = vdic(vieja@).subrange(0, i as int);
        let e = crate::objeto::clona_entrada(&vieja[i]);
        pone(&mut acc, &e.0, e.1);
        i = i + 1;
        proof {
            let s1 = vdic(vieja@).subrange(0, i as int);
            assert(s1.len() == i);
            assert(s1.drop_last() =~= pre);
            assert(s1.last() == vdic(vieja@)[i - 1]);
            assert(vdic(vieja@)[i - 1] == (vieja@[i - 1].0@, vo(vieja@[i - 1].1)));
        }
    }
    proof {
        assert(vdic(vieja@).subrange(0, vieja@.len() as int) =~= vdic(vieja@));
    }
    acc
}

/// Reconciliador estructural (primera pasada): recorre la tabla unida y
/// retiene el primer catalogo y la raiz de paginas plegada.
#[verifier::rlimit(50)]
pub fn reconcilia(todos: &Vec<(IdObjeto, Objeto)>) -> (r: (
    Option<(IdObjeto, Vec<(String, Objeto)>)>,
    Option<(IdObjeto, Vec<(String, Objeto)>)>,
))
    ensures
        match r.0 {
            Some((cid, cd)) => g_catalogo(vtab(todos@)) == Some((cid, vdic(cd@))) && exists|j: int|
                0 <= j < todos@.len() && #[trigger] todos@[j].0 == cid,
            None => g_catalogo(vtab(todos@)) is None,
        },
        match r.1 {
            Some((pid, pd)) => g_paginas(vtab(todos@)) == Some((pid, vdic(pd@))) && exists|j: int|
                0 <= j < todos@.len() && #[trigger] todos@[j].0 == pid,
            None => g_paginas(vtab(todos@)) is None,
        },
{
    let mut cat: Option<(IdObjeto, Vec<(String, Objeto)>)> = None;
    let mut pag: Option<(IdObjeto, Vec<(String, Objeto)>)> = None;
    let mut i: usize = 0;
    while i < todos.len()
        invariant
            0 <= i <= todos@.len(),
            match cat {
                Some((cid, cd)) => g_catalogo(vtab(todos@).subrange(0, i as int)) == Some(
                    (cid, vdic(cd@)),
                ) && exists|j: int| 0 <= j < i && #[trigger] todos@[j].0 == cid,
                None => g_catalogo(vtab(todos@).subrange(0, i as int)) is None,
            },
            match pag {
                Some((pid, pd)) => g_paginas(vtab(todos@).subrange(0, i as int)) == Some(
                    (pid, vdic(pd@)),
                ) && exists|j: int| 0 <= j < i && #[trigger] todos@[j].0 == pid,
                None => g_paginas(vtab(todos@).subrange(0, i as int)) is None,
            },
        decreases todos@.len() - i,
    {
        let ghost pre = vtab(todos@).subrange(0, i as int);
        let clase = clase_objeto(&todos[i].1);
        proof {
            let s1 = vtab(todos@).subrange(0, i as int + 1);
            assert(s1.drop_last() =~= pre);
            assert(s1.last() == vtab(todos@)[i as int]);
            assert(vtab(todos@)[i as int] == (todos@[i as int].0, vo(todos@[i as int].1)));
        }
        if clase == Clase::Catalogo && cat.is_none() {
            proof {
                lema_vo_variante_nombre(todos@[i as int].1);
            }
            if let Objeto::Diccionario(dd) = &todos[i].1 {
                proof {
                    assert(vo(todos@[i as int].1)->Diccionario_0 =~= vdic(dd@));
                }
                cat = Some((todos[i].0, clona_entradas(dd)));
            }
        } else if clase == Clase::Paginas {
            proof {
                lema_vo_variante_nombre(todos@[i as int].1);
            }
            if let Objeto::Diccionario(dd) = &todos[i].1 {
                proof {
                    assert(vo(todos@[i as int].1)->Diccionario_0 =~= vdic(dd@));
                }
                let nuevas = clona_entradas(dd);
                match pag {
                    None => {
                        pag = Some((todos[i].0, nuevas));
                    },
                    Some((pid0, viejas)) => {
                        let unidas = fusiona(nuevas, &viejas);
                        pag = Some((pid0, unidas));
                    },
                }
            }
        }
        i = i + 1;
    }
    proof {
        assert(vtab(todos@).subrange(0, todos@.len() as int) =~= vtab(todos@));
    }
    (cat, pag)
}

/// Tratamiento de una entrada en la segunda pasada: el primer catalogo
/// y la primera raiz de paginas salen con su contenido final, cada
/// pagina recogida sale con su `Parent` apuntando a la raiz unida, los
/// demas catalogos, raices, esquemas y paginas sin recoger se
/// descartan, y todo lo demas se copia tal cual.
pub open spec fn g_procesa(
    u: (IdObjeto, MObjeto),
    cid: IdObjeto,
    cfin: Seq<(Seq<char>, MObjeto)>,
    pid: IdObjeto,
    pfin: Seq<(Seq<char>, MObjeto)>,
    orden: Seq<IdObjeto>,
) -> Seq<(IdObjeto, MObjeto)> {
    if u.0 == cid {
        seq![(u.0, MObjeto::Diccionario(cfin))]
    } else if u.0 == pid {
        seq![(u.0, MObjeto::Diccionario(pfin))]
    } else if clase_de(u.1) == Clase::Pagina {
        if orden.contains(u.0) {
            seq![
                (
                    u.0,
                    MObjeto::Diccionario(
                        g_pone(u.1->Diccionario_0, "Parent"@, MObjeto::Referencia(pid)),
                    ),
                ),
            ]
        } else {
            Seq::empty()
        }
    } else if clase_de(u.1) == Clase::Otra {
        seq![u]
    } else {
        Seq::empty()
    }
}

/// Tabla unida final, antes de la renumeracion contigua.
pub open spec fn g_tabla_final(
    t: Seq<(IdObjeto, MObjeto)>,
    cid: IdObjeto,
    cfin: Seq<(Seq<char>, MObjeto)>,
    pid: IdObjeto,
    pfin: Seq<(Seq<char>, MObjeto)>,
    orden: Seq<IdObjeto>,
) -> Seq<(IdObjeto, MObjeto)>
    decreases t.len(),
{
    if t.len() == 0 {
        Seq::empty()
    } else {
        g_tabla_final(t.drop_last(), cid, cfin, pid, pfin, orden) + g_procesa(
            t.last(),
            cid,
            cfin,
            pid,
            pfin,
            orden,
        )
    }
}

/// Segunda pasada del reconciliador: arma la tabla final y devuelve la
/// posicion del catalogo en ella.
#[verifier::rlimit(100)]
pub fn arma_tabla(
    todos: &Vec<(IdObjeto, Objeto)>,
    cid: IdObjeto,
    cfin: &Vec<(String, Objeto)>,
    pid: IdObjeto,
    pfin: &Vec<(String, Objeto)>,
    orden: &Vec<IdObjeto>,
) -> (r: (Vec<(IdObjeto, Objeto)>, Option<usize>))
    ensures
        vtab(r.0@) == g_tabla_final(vtab(todos@), cid, vdic(cfin@), pid, vdic(pfin@), orden@),
        match r.1 {
            Some(ix) => 0 <= ix < r.0@.len() && r.0@[ix as int].0 == cid && (forall|l: int|
                0 <= l < ix ==> r.0@[l].0 != cid),
            None => forall|j: int| 0 <= j < todos@.len() ==> #[trigger] todos@[j].0 != cid,
        },
        r.0@.len() <= todos@.len(),
{
    let mut tabla: Vec<(IdObjeto, Objeto)> = Vec::new();
    let mut idx_cat: Option<usize> = None;
    let mut i: usize = 0;
    proof {
        assert(vtab(tabla@) =~= g_tabla_final(
            vtab(todos@).subrange(0, 0),
            cid,
            vdic(cfin@),
            pid,
            vdic(pfin@),
            orden@,
        ));
    }
    while i < todos.len()
        invariant
            0 <= i <= todos@.len(),
            tabla@.len() <= i,
            vtab(tabla@) == g_tabla_final(
                vtab(todos@).subrange(0, i as int),
                cid,
                vdic(cfin@),
                pid,
                vdic(pfin@),
                orden@,
            ),
            match idx_cat {
                Some(ix) => 0 <= ix < tabla@.len() && tabla@[ix as int].0 == cid && (forall|l: int|
                    0 <= l < ix ==> tabla@[l].0 != cid),
                None => (forall|j: int| 0 <= j < i ==> #[trigger] todos@[j].0 != cid) && (forall|
                    l: int,
                |
                    0 <= l < tabla@.len() ==> tabla@[l].0 != cid),
            },
        decreases todos@.len() - i,
    {
        let ghost pre = vtab(todos@).subrange(0, i as int);
        let ghost u = vtab(todos@)[i as int];
        proof {
            let s1 = vtab(todos@).subrange(0, i as int + 1);
            assert(s1.drop_last() =~= pre);
            assert(s1.last() == u);
            assert(u == (todos@[i as int].0, vo(todos@[i as int].1)));
        }
        let id = todos[i].0;
        if id == cid {
            if idx_cat.is_none() {
                idx_cat = Some(tabla.len());
            }
            tabla.push((id, Objeto::Diccionario(clona_entradas(cfin))));
            proof {
                let objetivo = g_tabla_final(pre, cid, vdic(cfin@), pid, vdic(pfin@), orden@)
                    + g_procesa(u, cid, vdic(cfin@), pid, vdic(pfin@), orden@);
                assert(g_procesa(u, cid, vdic(cfin@), pid, vdic(pfin@), orden@).len() == 1);
                assert(vtab(tabla@).len() == objetivo.len());
                assert forall|j: int| 0 <= j < objetivo.len() implies vtab(tabla@)[j]
                    == objetivo[j] by {
                    if j < objetivo.len() - 1 {
                        assert(vtab(tabla@)[j] == (tabla@[j].0, vo(tabla@[j].1)));
                    } else {
                        assert(vo(tabla@[j].1)->Diccionario_0 =~= vdic(cfin@));
                        assert(vo(tabla@[j].1) == MObjeto::Diccionario(vdic(cfin@)));
                    }
                }
                assert(vtab(tabla@) =~= objetivo);
            }
        } else if id == pid {
            tabla.push((id, Objeto::Diccionario(clona_entradas(pfin))));
            proof {
                let objetivo = g_tabla_final(pre, cid, vdic(cfin@), pid, vdic(pfin@), orden@)
                    + g_procesa(u, cid, vdic(cfin@), pid, vdic(pfin@), orden@);
                assert forall|j: int| 0 <= j < objetivo.len() implies vtab(tabla@)[j]
                    == objetivo[j] by {
                    if j < objetivo.len() - 1 {
                        assert(vtab(tabla@)[j] == (tabla@[j].0, vo(tabla@[j].1)));
                    } else {
                        assert(vo(tabla@[j].1)->Diccionario_0 =~= vdic(pfin@));
                        assert(vo(tabla@[j].1) == MObjeto::Diccionario(vdic(pfin@)));
                    }
                }
                assert(vtab(tabla@) =~= objetivo);
            }
        } else {
            let clase = clase_objeto(&todos[i].1);
            if clase == Clase::Pagina {
                match busca_id(orden, id) {
                    Some(_) => {
                        proof {
                            lema_vo_variante_nombre(todos@[i as int].1);
                        }
                        if let Objeto::Diccionario(dd) = &todos[i].1 {
                            proof {
                                assert(vo(todos@[i as int].1)->Diccionario_0 =~= vdic(dd@));
                            }
                            let mut nd = clona_entradas(dd);
                            let padre = String::from_str("Parent");
                            pone(&mut nd, &padre, Objeto::Referencia(pid));
                            tabla.push((id, Objeto::Diccionario(nd)));
                            proof {
                                let objetivo = g_tabla_final(pre, cid, vdic(cfin@), pid,
                                    vdic(pfin@), orden@) + g_procesa(u, cid, vdic(cfin@), pid,
                                    vdic(pfin@), orden@);
                                let dmod = g_pone(vo(todos@[i as int].1)->Diccionario_0,
                                    "Parent"@, MObjeto::Referencia(pid));
                                assert forall|j: int| 0 <= j < objetivo.len() implies
                                    vtab(tabla@)[j] == objetivo[j] by {
                                    if j < objetivo.len() - 1 {
                                        assert(vtab(tabla@)[j] == (tabla@[j].0, vo(tabla@[j].1)));
                                    } else {
                                        assert(vdic(nd@) == g_pone(vdic(dd@), "Parent"@,
                                            vo(Objeto::Referencia(pid))));
                                        assert(vo(tabla@[j].1)->Diccionario_0 =~= dmod);
                                        assert(vo(tabla@[j].1) == MObjeto::Diccionario(dmod));
                                    }
                                }
                                assert(vtab(tabla@) =~= objetivo);
                            }
                        }
                    },
                    None => {
                        proof {
                            assert(g_procesa(u, cid, vdic(cfin@), pid, vdic(pfin@), orden@)
                                =~= Seq::empty());
                            assert(vtab(tabla@) =~~= g_tabla_final(pre, cid, vdic(cfin@), pid,
                                vdic(pfin@), orden@) + g_procesa(u, cid, vdic(cfin@), pid,
                                vdic(pfin@), orden@));
                        }
                    },
                }
            } else if clase == Clase::Otra {
                let copia = crate::objeto::clona_objeto(&todos[i].1);
                tabla.push((id, copia));
                proof {
                    assert(vtab(tabla@) =~~= g_tabla_final(pre, cid, vdic(cfin@), pid, vdic(pfin@),
                        orden@) + g_procesa(u, cid, vdic(cfin@), pid, vdic(pfin@), orden@));
                }
            } else {
                proof {
                    assert(g_procesa(u, cid, vdic(cfin@), pid, vdic(pfin@), orden@)
                        =~= Seq::empty());
                    assert(vtab(tabla@) =~~= g_tabla_final(pre, cid, vdic(cfin@), pid, vdic(pfin@),
                        orden@) + g_procesa(u, cid, vdic(cfin@), pid, vdic(pfin@), orden@));
                }
            }
        }
        i = i + 1;
    }
    proof {
        assert(vtab(todos@).subrange(0, todos@.len() as int) =~= vtab(todos@));
    }
    (tabla, idx_cat)
}

/// Identificadores de una tabla del modelo.
pub open spec fn g_ids_m(t: Seq<(IdObjeto, MObjeto)>) -> Seq<IdObjeto> {
    Seq::new(t.len(), |i: int| t[i].0)
}

/// Renumeracion contigua de una tabla del modelo desde `inicio`.
pub open spec fn g_renum_m(t: Seq<(IdObjeto, MObjeto)>, inicio: int) -> Seq<(IdObjeto, MObjeto)> {
    Seq::new(
        t.len(),
        |j: int|
            (
                IdObjeto { num: (inicio + j) as u32, gen: t[j].0.gen },
                reescribe_modelo(t[j].1, mapa_renum(g_ids_m(t), inicio)),
            ),
    )
}

/// Tabla unida de todos los documentos de la entrada.
pub open spec fn g_todo(docs: Seq<Documento>) -> Seq<(IdObjeto, MObjeto)> {
    g_tabla_total(docs, docs.len() as int)
}

/// Orden de lectura unido de todos los documentos.
pub open spec fn g_ordenes(docs: Seq<Documento>) -> Seq<IdObjeto> {
    g_orden_total(docs, docs.len() as int)
}

/// Marcadores de todos los documentos.
pub open spec fn g_marcas_todas(docs: Seq<Documento>) -> Seq<(Seq<u8>, IdObjeto)> {
    g_marcas(docs, docs.len() as int)
}

/// Referencias a una sucesion de identificadores.
pub open spec fn g_refs(o: Seq<IdObjeto>) -> Seq<MObjeto> {
    Seq::new(o.len(), |k: int| MObjeto::Referencia(o[k]))
}

/// Contenido final de la raiz de paginas: la fusion con `Count` y
/// `Kids` recalculados sobre las paginas recogidas.
pub open spec fn g_paginas_final(docs: Seq<Documento>) -> Seq<(Seq<char>, MObjeto)> {
    g_pone(
        g_pone(
            g_paginas(g_todo(docs))->Some_0.1,
            "Count"@,
            MObjeto::Entero(g_ordenes(docs).len() as i64),
        ),
        "Kids"@,
        MObjeto::Arreglo(g_refs(g_ordenes(docs))),
    )
}

/// Contenido final del catalogo: el del primer catalogo con `Pages`
/// apuntando a la raiz unida y sin `Outlines` heredado.
pub open spec fn g_catalogo_final(docs: Seq<Documento>) -> Seq<(Seq<char>, MObjeto)> {
    g_quita(
        g_pone(
            g_catalogo(g_todo(docs))->Some_0.1,
            "Pages"@,
            MObjeto::Referencia(g_paginas(g_todo(docs))->Some_0.0),
        ),
        "Outlines"@,
    )
}

/// Tabla unida final, antes de la renumeracion contigua.
pub open spec fn g_prefinal(docs: Seq<Documento>) -> Seq<(IdObjeto, MObjeto)> {
    g_tabla_final(
        g_todo(docs),
        g_catalogo(g_todo(docs))->Some_0.0,
        g_catalogo_final(docs),
        g_paginas(g_todo(docs))->Some_0.0,
        g_paginas_final(docs),
        g_ordenes(docs),
    )
}

/// Renombrado de la renumeracion contigua final.
pub open spec fn g_mapa_final(docs: Seq<Documento>) -> Map<IdObjeto, IdObjeto> {
    mapa_renum(g_ids_m(g_prefinal(docs)), 1)
}

/// Orden de lectura del documento final.
pub open spec fn g_orden_final(docs: Seq<Documento>) -> Seq<IdObjeto> {
    Seq::new(g_ordenes(docs).len(), |k: int| aplica(g_mapa_final(docs), g_ordenes(docs)[k]))
}

/// Tabla del documento final antes de anadir el esquema.
pub open spec fn g_tabla_contigua(docs: Seq<Documento>) -> Seq<(IdObjeto, MObjeto)> {
    g_renum_m(g_prefinal(docs), 1)
}

/// Destino reparado de un marcador: si el destino apunta al
/// identificador cero o a un objeto retirado, se redirige a la primera
/// pagina del orden final; si no, queda como esta.
pub open spec fn g_repara(p: IdObjeto, docs: Seq<Documento>) -> IdObjeto {
    if p.num == 0 || g_busca_tab(g_tabla_contigua(docs), p) is None {
        g_orden_final(docs)[0]
    } else {
        p
    }
}

/// `g_inicio` no mengua al avanzar por la lista.
pub proof fn lema_inicio_mono(docs: Seq<Documento>, i: int, j: int)
    requires
        0 <= i <= j,
    ensures
        g_inicio(docs, i) <= g_inicio(docs, j),
    decreases j - i,
{
    if i < j {
        lema_inicio_mono(docs, i, j - 1);
    }
}

/// Titulos y destinos de una lista de marcadores.
pub open spec fn vmarcas(ms: Seq<Marcador>) -> Seq<(Seq<u8>, IdObjeto)> {
    Seq::new(ms.len(), |k: int| (ms[k].titulo@, ms[k].destino))
}

/// Identificador de la entrada `k` del esquema sobre una tabla de `n`
/// objetos.
pub open spec fn id_entrada_esquema(n: int, k: int) -> IdObjeto {
    IdObjeto { num: (n + 2 + 2 * k) as u32, gen: 0 }
}

/// Identificador de la accion de salto de la entrada `k` del esquema.
pub open spec fn id_salto_esquema(n: int, k: int) -> IdObjeto {
    IdObjeto { num: (n + 3 + 2 * k) as u32, gen: 0 }
}

/// Raiz del esquema: primera y ultima entrada, y la cuenta.
pub open spec fn g_dic_raiz(ms: Seq<(Seq<u8>, IdObjeto)>, n: int) -> Seq<(Seq<char>, MObjeto)> {
    seq![
        ("First"@, MObjeto::Referencia(id_entrada_esquema(n, 0))),
        ("Last"@, MObjeto::Referencia(id_entrada_esquema(n, ms.len() - 1))),
        ("Count"@, MObjeto::Entero(ms.len() as i64)),
    ]
}

/// Entrada `k` del esquema: cuelga de la raiz, lleva el titulo del
/// marcador, su accion de salto, formato normal y el color fijo azul,
/// y se encadena con la anterior y la siguiente.
pub open spec fn g_dic_entrada(ms: Seq<(Seq<u8>, IdObjeto)>, n: int, k: int) -> Seq<
    (Seq<char>, MObjeto),
> {
    seq![
        ("Parent"@, MObjeto::Referencia(IdObjeto { num: (n + 1) as u32, gen: 0 })),
        ("Title"@, MObjeto::Cadena(ms[k].0)),
        ("A"@, MObjeto::Referencia(id_salto_esquema(n, k))),
        ("F"@, MObjeto::Entero(0)),
        (
            "C"@,
            MObjeto::Arreglo(seq![MObjeto::Real("0"@), MObjeto::Real("0"@), MObjeto::Real("1"@)]),
        ),
    ] + (if k > 0 {
        seq![("Prev"@, MObjeto::Referencia(id_entrada_esquema(n, k - 1)))]
    } else {
        Seq::empty()
    }) + (if k + 1 < ms.len() {
        seq![("Next"@, MObjeto::Referencia(id_entrada_esquema(n, k + 1)))]
    } else {
        Seq::empty()
    })
}

/// Accion de salto de la entrada `k`: ir a la pagina destino, ajustada.
pub open spec fn g_dic_salto(ms: Seq<(Seq<u8>, IdObjeto)>, k: int) -> Seq<(Seq<char>, MObjeto)> {
    seq![
        (
            "D"@,
            MObjeto::Arreglo(seq![MObjeto::Referencia(ms[k].1), MObjeto::Nombre("Fit"@)]),
        ),
        ("S"@, MObjeto::Nombre("GoTo"@)),
    ]
}

/// Las primeras `k` parejas entrada-accion del esquema.
pub open spec fn g_entradas_esquema(ms: Seq<(Seq<u8>, IdObjeto)>, n: int, k: int) -> Seq<
    (IdObjeto, MObjeto),
>
    decreases k,
{
    if k <= 0 {
        Seq::empty()
    } else {
        g_entradas_esquema(ms, n, k - 1) + seq![
            (id_entrada_esquema(n, k - 1), MObjeto::Diccionario(g_dic_entrada(ms, n, k - 1))),
            (id_salto_esquema(n, k - 1), MObjeto::Diccionario(g_dic_salto(ms, k - 1))),
        ]
    }
}

/// El esquema entero: la raiz y, tras ella, una pareja entrada-accion
/// por marcador.
pub open spec fn g_esquema(ms: Seq<(Seq<u8>, IdObjeto)>, n: int) -> Seq<(IdObjeto, MObjeto)> {
    seq![
        (IdObjeto { num: (n + 1) as u32, gen: 0 }, MObjeto::Diccionario(g_dic_raiz(ms, n))),
    ] + g_entradas_esquema(ms, n, ms.len() as int)
}

/// La tabla del documento final entera: la tabla renumerada contigua y,
/// si hay marcadores, el catalogo con su campo `Outlines` apuntando a
/// la raiz del esquema y los objetos del esquema anadidos al final.
pub open spec fn g_tabla_salida(docs: Seq<Documento>, ms: Seq<(Seq<u8>, IdObjeto)>) -> Seq<
    (IdObjeto, MObjeto),
> {
    let t = g_tabla_contigua(docs);
    if ms.len() == 0 {
        t
    } else {
        let jc = indice_de(g_ids_m(g_prefinal(docs)), g_catalogo(g_todo(docs))->Some_0.0);
        let raiz = IdObjeto { num: (t.len() + 1) as u32, gen: 0 };
        t.update(
            jc,
            (
                t[jc].0,
                MObjeto::Diccionario(
                    g_pone(t[jc].1->Diccionario_0, "Outlines"@, MObjeto::Referencia(raiz)),
                ),
            ),
        ) + g_esquema(ms, t.len() as int)
    }
}

/// Toda entrada de la tabla final que lleva el identificador del
/// catalogo lleva el contenido final del catalogo.
pub proof fn lema_tabla_final_catalogo(
    t: Seq<(IdObjeto, MObjeto)>,
    cid: IdObjeto,
    cfin: Seq<(Seq<char>, MObjeto)>,
    pid: IdObjeto,
    pfin: Seq<(Seq<char>, MObjeto)>,
    orden: Seq<IdObjeto>,
    j: int,
)
    requires
        0 <= j < g_tabla_final(t, cid, cfin, pid, pfin, orden).len(),
        g_tabla_final(t, cid, cfin, pid, pfin, orden)[j].0 == cid,
    ensures
        g_tabla_final(t, cid, cfin, pid, pfin, orden)[j].1 == MObjeto::Diccionario(cfin),
    decreases t.len(),
{
    if t.len() > 0 {
        let previo = g_tabla_final(t.drop_last(), cid, cfin, pid, pfin, orden);
        if j < previo.len() {
            lema_tabla_final_catalogo(t.drop_last(), cid, cfin, pid, pfin, orden, j);
        }
    }
}

/// Ensamblador del esquema: una entrada plana por marcador, con su
/// accion de salto a la pagina destino, y la raiz que las encadena.
/// Los identificadores nuevos siguen contiguos a la tabla: la raiz en
/// `base + 1`, y cada marcador su entrada en `base + 2k + 2` y su
/// accion en `base + 2k + 3`.
#[verifier::rlimit(100)]
pub fn construye_esquema(marcas: &Vec<Marcador>, base: u32) -> (r: Vec<(IdObjeto, Objeto)>)
    requires
        marcas@.len() >= 1,
        base + 2 * marcas@.len() + 1 <= u32::MAX,
    ensures
        vtab(r@) == g_esquema(vmarcas(marcas@), base as int),
        r@.len() == 1 + 2 * marcas@.len(),
        forall|j: int|
            0 <= j < r@.len() ==> r@[j].0 == (IdObjeto { num: (base + 1 + j) as u32, gen: 0 }),
        forall|k: int|
            0 <= k < marcas@.len() ==> (vo(#[trigger] r@[1 + 2 * k].1) matches
                MObjeto::Diccionario(d) && g_busca(d, "Title"@) == Some(
                MObjeto::Cadena(marcas@[k].titulo@),
            )),
        forall|k: int|
            0 <= k < marcas@.len() ==> (vo(#[trigger] r@[2 + 2 * k].1) matches
                MObjeto::Diccionario(d) && g_busca(d, "D"@) == Some(
                MObjeto::Arreglo(
                    seq![
                        MObjeto::Referencia(marcas@[k].destino),
                        MObjeto::Nombre("Fit"@),
                    ],
                ),
            )),
{
    let ghost vm = vmarcas(marcas@);
    let ghost n = base as int;
    let raiz = IdObjeto { num: base + 1, gen: 0 };
    let ultimo = IdObjeto { num: base + 2 + 2 * ((marcas.len() - 1) as u32), gen: 0 };
    let mut dic_raiz: Vec<(String, Objeto)> = Vec::new();
    dic_raiz.push((String::from_str("First"), Objeto::Referencia(IdObjeto { num: base + 2, gen: 0 })));
    dic_raiz.push((String::from_str("Last"), Objeto::Referencia(ultimo)));
    dic_raiz.push((String::from_str("Count"), Objeto::Entero(marcas.len() as i64)));
    let ghost graiz = dic_raiz@;

    let mut fuera: Vec<(IdObjeto, Objeto)> = Vec::new();
    let obj_raiz = Objeto::Diccionario(dic_raiz);
    proof {
        assert(vdic(graiz) =~= g_dic_raiz(vm, n));
        assert(vo(obj_raiz)->Diccionario_0 =~= vdic(graiz));
        assert(vo(obj_raiz) == MObjeto::Diccionario(g_dic_raiz(vm, n)));
    }
    fuera.push((raiz, obj_raiz));
    proof {
        assert(vtab(fuera@) =~= seq![
            (raiz, MObjeto::Diccionario(g_dic_raiz(vm, n))),
        ] + g_entradas_esquema(vm, n, 0));
    }

    let mut k: usize = 0;
    while k < marcas.len()
        invariant
            0 <= k <= marcas@.len(),
            fuera@.len() == 1 + 2 * k,
            vtab(fuera@) == seq![
                (raiz, MObjeto::Diccionario(g_dic_raiz(vm, n))),
            ] + g_entradas_esquema(vm, n, k as int),
            forall|j: int|
                0 <= j < fuera@.len() ==> fuera@[j].0 == (IdObjeto {
                    num: (base + 1 + j) as u32,
                    gen: 0,
                }),
            forall|l: int|
                0 <= l < k ==> (vo(#[trigger] fuera@[1 + 2 * l].1) matches MObjeto::Diccionario(d)
                    && g_busca(d, "Title"@) == Some(MObjeto::Cadena(marcas@[l].titulo@))),
            forall|l: int|
                0 <= l < k ==> (vo(#[trigger] fuera@[2 + 2 * l].1) matches MObjeto::Diccionario(d)
                    && g_busca(d, "D"@) == Some(
                    MObjeto::Arreglo(
                        seq![
                            MObjeto::Referencia(marcas@[l].destino),
                            MObjeto::Nombre("Fit"@),
                        ],
                    ),
                )),
        decreases marcas@.len() - k,
    {
        let id_item = IdObjeto { num: base + 2 + 2 * (k as u32), gen: 0 };
        let id_accion = IdObjeto { num: base + 3 + 2 * (k as u32), gen: 0 };

        let mut item: Vec<(String, Objeto)> = Vec::new();
        item.push((String::from_str("Parent"), Objeto::Referencia(raiz)));
        item.push((String::from_str("Title"), Objeto::Cadena(clona_bytes(&marcas[k].titulo))));
        item.push((String::from_str("A"), Objeto::Referencia(id_accion)));
        item.push((String::from_str("F"), Objeto::Entero(0)));
        let mut color: Vec<Objeto> = Vec::new();
        color.push(Objeto::Real(String::from_str("0")));
        color.push(Objeto::Real(String::from_str("0")));
        color.push(Objeto::Real(String::from_str("1")));
        item.push((String::from_str("C"), Objeto::Arreglo(color)));
        if k > 0 {
            item.push(
                (
                    String::from_str("Prev"),
                    Objeto::Referencia(IdObjeto { num: base + 2 * (k as u32), gen: 0 }),
                ),
            );
        }
        if k + 1 < marcas.len() {
            item.push(
                (
                    String::from_str("Next"),
                    Objeto::Referencia(IdObjeto { num: base + 4 + 2 * (k as u32), gen: 0 }),
                ),
            );
        }

        let mut accion: Vec<(String, Objeto)> = Vec::new();
        let mut salto: Vec<Objeto> = Vec::new();
        salto.push(Objeto::Referencia(marcas[k].destino));
        salto.push(Objeto::Nombre(String::from_str("Fit")));
        accion.push((String::from_str("D"), Objeto::Arreglo(salto)));
        accion.push((String::from_str("S"), Objeto::Nombre(String::from_str("GoTo"))));

        proof {
            reveal_strlit("Parent");
            reveal_strlit("Title");
            reveal_strlit("D");
        }
        let ghost gitem = item@;
        let ghost gaccion = accion@;
        proof {
            assert(gitem[1].1 matches Objeto::Cadena(c) && c@ == marcas@[k as int].titulo@);
            assert(vo(gitem[1].1) == MObjeto::Cadena(marcas@[k as int].titulo@));
            assert(gitem[4].1 matches Objeto::Arreglo(cs) && cs@.len() == 3 && vo(cs@[0])
                == MObjeto::Real("0"@) && vo(cs@[1]) == MObjeto::Real("0"@) && vo(cs@[2])
                == MObjeto::Real("1"@));
            assert(vo(gitem[4].1)->Arreglo_0 =~= seq![
                MObjeto::Real("0"@),
                MObjeto::Real("0"@),
                MObjeto::Real("1"@),
            ]);
            assert(vo(gitem[4].1) == MObjeto::Arreglo(seq![
                MObjeto::Real("0"@),
                MObjeto::Real("0"@),
                MObjeto::Real("1"@),
            ]));
            assert(gaccion[0].1 matches Objeto::Arreglo(s) && s@.len() == 2 && vo(s@[0])
                == MObjeto::Referencia(marcas@[k as int].destino) && vo(s@[1]) == MObjeto::Nombre(
                "Fit"@,
            ));
            assert(vo(gaccion[0].1)->Arreglo_0 =~= seq![
                MObjeto::Referencia(marcas@[k as int].destino),
                MObjeto::Nombre("Fit"@),
            ]);
            assert(vo(gaccion[0].1) == MObjeto::Arreglo(seq![
                MObjeto::Referencia(marcas@[k as int].destino),
                MObjeto::Nombre("Fit"@),
            ]));
            assert(vm[k as int] == (marcas@[k as int].titulo@, marcas@[k as int].destino));
            assert(vdic(gitem) =~= g_dic_entrada(vm, n, k as int));
            assert(vdic(gaccion) =~= g_dic_salto(vm, k as int));
        }
        let obj_item = Objeto::Diccionario(item);
        let obj_accion = Objeto::Diccionario(accion);
        proof {
            let di = vo(obj_item)->Diccionario_0;
            assert(di[0] == (gitem[0].0@, vo(gitem[0].1)));
            assert(di[1] == (gitem[1].0@, vo(gitem[1].1)));
            assert(di[0].0 == "Parent"@ && di[1].0 == "Title"@);
            assert(di[1].1 == MObjeto::Cadena(marcas@[k as int].titulo@));
            assert("Parent"@ != "Title"@);
            lema_busca_en(di, "Title"@, 1);
            let da = vo(obj_accion)->Diccionario_0;
            assert(da[0] == (gaccion[0].0@, vo(gaccion[0].1)));
            assert(da[0].0 == "D"@);
            assert(vo(gaccion[0].1)->Arreglo_0 =~= seq![
                MObjeto::Referencia(marcas@[k as int].destino),
                MObjeto::Nombre("Fit"@),
            ]);
            lema_busca_en(da, "D"@, 0);
        }
        proof {
            assert(vo(obj_item)->Diccionario_0 =~= vdic(gitem));
            assert(vo(obj_item) == MObjeto::Diccionario(g_dic_entrada(vm, n, k as int)));
            assert(vo(obj_accion)->Diccionario_0 =~= vdic(gaccion));
            assert(vo(obj_accion) == MObjeto::Diccionario(g_dic_salto(vm, k as int)));
        }
        let ghost previo = vtab(fuera@);
        let ghost vant = fuera@;
        fuera.push((id_item, obj_item));
        fuera.push((id_accion, obj_accion));
        k = k + 1;
        proof {
            let objetivo = seq![
                (raiz, MObjeto::Diccionario(g_dic_raiz(vm, n))),
            ] + g_entradas_esquema(vm, n, k as int);
            assert(g_entradas_esquema(vm, n, k as int) == g_entradas_esquema(vm, n, k as int - 1)
                + seq![
                (id_entrada_esquema(n, k as int - 1), MObjeto::Diccionario(
                    g_dic_entrada(vm, n, k as int - 1),
                )),
                (id_salto_esquema(n, k as int - 1), MObjeto::Diccionario(
                    g_dic_salto(vm, k as int - 1),
                )),
            ]);
            assert(id_entrada_esquema(n, k as int - 1) == id_item);
            assert(id_salto_esquema(n, k as int - 1) == id_accion);
            assert forall|j: int| 0 <= j < objetivo.len() implies vtab(fuera@)[j]
                == objetivo[j] by {
                assert(vtab(fuera@)[j] == (fuera@[j].0, vo(fuera@[j].1)));
                if j < objetivo.len() - 2 {
                    assert(fuera@[j] == vant[j]);
                    assert(vtab(fuera@)[j] == previo[j]);
                }
            }
            assert(vtab(fuera@) =~= objetivo);
        }
    }
    fuera
}

/// Destino de un marcador tras la reparacion: si apunta al
/// identificador cero o a un objeto ausente de la tabla, la primera
/// pagina; si no, el destino intacto.
pub open spec fn g_destino_reparado(
    viejo: IdObjeto,
    t: Seq<(IdObjeto, MObjeto)>,
    primero: IdObjeto,
) -> IdObjeto {
    if viejo.num == 0 || g_busca_tab(t, viejo) is None {
        primero
    } else {
        viejo
    }
}

/// Reparador de marcadores (paso previo al ensamblado del esquema):
/// todo marcador cuyo destino apunta al identificador cero o a un
/// objeto que ya no esta en la tabla se redirige a la primera pagina
/// del orden final; ninguno queda colgando. Lo demas no cambia.
pub fn repara_marcadores(doc: &mut Documento)
    requires
        old(doc).orden_paginas@.len() > 0 || old(doc).marcadores@.len() == 0,
    ensures
        final(doc).objetos@ == old(doc).objetos@,
        final(doc).cola@ == old(doc).cola@,
        final(doc).orden_paginas@ == old(doc).orden_paginas@,
        final(doc).max_id == old(doc).max_id,
        final(doc).version@ == old(doc).version@,
        final(doc).marcadores@.len() == old(doc).marcadores@.len(),
        forall|k: int|
            0 <= k < old(doc).marcadores@.len() ==> {
                let viejo = old(doc).marcadores@[k];
                let nuevo = #[trigger] final(doc).marcadores@[k];
                nuevo.titulo@ == viejo.titulo@ && nuevo.nivel == viejo.nivel && nuevo.destino
                    == g_destino_reparado(
                    viejo.destino,
                    vtab(old(doc).objetos@),
                    old(doc).orden_paginas@[0],
                )
            },
{
    let mut k: usize = 0;
    while k < doc.marcadores.len()
        invariant
            0 <= k <= doc.marcadores@.len(),
            doc.objetos@ == old(doc).objetos@,
            doc.cola@ == old(doc).cola@,
            doc.orden_paginas@ == old(doc).orden_paginas@,
            doc.max_id == old(doc).max_id,
            doc.version@ == old(doc).version@,
            doc.marcadores@.len() == old(doc).marcadores@.len(),
            forall|l: int| k <= l < doc.marcadores@.len() ==> #[trigger] doc.marcadores@[l]
                == old(doc).marcadores@[l],
            forall|l: int|
                0 <= l < k ==> {
                    let viejo = old(doc).marcadores@[l];
                    let nuevo = #[trigger] doc.marcadores@[l];
                    nuevo.titulo@ == viejo.titulo@ && nuevo.nivel == viejo.nivel && nuevo.destino
                        == g_destino_reparado(
                        viejo.destino,
                        vtab(old(doc).objetos@),
                        old(doc).orden_paginas@[0],
                    )
                },
        decreases doc.marcadores@.len() - k,
    {
        let destino = doc.marcadores[k].destino;
        let falta = destino.num == 0 || busca_tabla(&doc.objetos, destino).is_none();
        if falta {
            let titulo = clona_bytes(&doc.marcadores[k].titulo);
            let nivel = doc.marcadores[k].nivel;
            let primero = doc.orden_paginas[0];
            doc.marcadores.set(k, Marcador { titulo, destino: primero, nivel });
        }
        k = k + 1;
    }
}

/// Da una posicion de la tabla que lleva el identificador buscado,
/// sabida su existencia.
pub proof fn indice_testigo(t: Seq<(IdObjeto, Objeto)>, cid: IdObjeto) -> (j: int)
    requires
        exists|l: int| 0 <= l < t.len() && #[trigger] t[l].0 == cid,
    ensures
        0 <= j < t.len(),
        t[j].0 == cid,
{
    choose|l: int| 0 <= l < t.len() && #[trigger] t[l].0 == cid
}

/// El motor de union. Toma los documentos ya analizados, en el orden de
/// la lista de entrada, y produce un solo documento coherente:
/// renumera cada grafo sobre un contador global creciente, retiene el
/// primer catalogo y pliega las raices de paginas (el campo visto antes
/// gana), recoge todas las hojas de pagina en el orden de los
/// documentos con un marcador por documento hacia su primera pagina,
/// recalcula `Count`, `Kids`, `Parent` y la raiz de la cola, renumera
/// el conjunto de forma contigua desde uno, repara los marcadores sin
/// destino y ensambla el esquema plano de navegacion.
///
/// Si ningun objeto tiene papel de raiz de paginas, o ninguno de
/// catalogo, la union aborta con el error estructural que corresponde y
/// no produce nada.
#[verifier::rlimit(100)]
pub fn unir_documentos(docs: Vec<Documento>) -> (r: Result<Unido, ErrorUnion>)
    requires
        g_inicio(docs@, docs@.len() as int) + 2 * docs@.len() + 2 <= u32::MAX,
        g_suma_paginas(docs@, docs@.len() as int) <= u32::MAX,
    ensures
        (r matches Err(e) && e == ErrorUnion::SinRaizPaginas) <==> g_paginas(g_todo(docs@)) is None,
        (r matches Err(e) && e == ErrorUnion::SinCatalogo) <==> (g_paginas(g_todo(docs@)) is Some
            && g_catalogo(g_todo(docs@)) is None),
        r matches Ok(m) ==> {
            &&& m.paginas as int == g_suma_paginas(docs@, docs@.len() as int)
            &&& m.documento.orden_paginas@ == g_orden_final(docs@)
            &&& m.documento.orden_paginas@.len() == m.paginas as int
            &&& m.marcadores as int == g_marcas_todas(docs@).len()
            &&& m.documento.marcadores@.len() == m.marcadores as int
            &&& (forall|j: int|
                0 <= j < m.documento.objetos@.len() ==> #[trigger] m.documento.objetos@[j].0.num
                    == j + 1)
            &&& vdic(m.documento.cola@) == seq![
                (
                    "Root"@,
                    MObjeto::Referencia(
                        aplica(g_mapa_final(docs@), g_catalogo(g_todo(docs@))->Some_0.0),
                    ),
                ),
            ]
            &&& (forall|k: int|
                0 <= k < m.documento.marcadores@.len() ==> (#[trigger] m.documento.marcadores@[k]).titulo@
                    == g_marcas_todas(docs@)[k].0 && m.documento.marcadores@[k].nivel == 0
                    && m.documento.marcadores@[k].destino == g_repara(
                    aplica(g_mapa_final(docs@), g_marcas_todas(docs@)[k].1),
                    docs@,
                ))
            &&& vtab(m.documento.objetos@) == g_tabla_salida(docs@, vmarcas(m.documento.marcadores@))
            &&& m.documento.max_id as int == m.documento.objetos@.len()
            &&& m.documento.objetos@.len() == g_prefinal(docs@).len() + (
            if g_marcas_todas(docs@).len() == 0 {
                0int
            } else {
                1 + 2 * g_marcas_todas(docs@).len() as int
            })
        },
{
    let ghost gd = docs@;
    let mut sig: u32 = 1;
    let mut todos: Vec<(IdObjeto, Objeto)> = Vec::new();
    let mut orden: Vec<IdObjeto> = Vec::new();
    let mut marcas: Vec<Marcador> = Vec::new();
    let mut num_marca: u32 = 1;
    let mut i: usize = 0;
    proof {
        assert(vtab(todos@) =~= g_tabla_total(gd, 0));
        assert(orden@ =~= g_orden_total(gd, 0));
    }
    while i < docs.len()
        invariant
            0 <= i <= gd.len(),
            docs@ == gd,
            sig as int == g_inicio(gd, i as int),
            sig >= 1,
            vtab(todos@) == g_tabla_total(gd, i as int),
            todos@.len() == g_inicio(gd, i as int) - 1,
            orden@ == g_orden_total(gd, i as int),
            orden@.len() == g_suma_paginas(gd, i as int),
            marcas@.len() == g_marcas(gd, i as int).len(),
            marcas@.len() <= orden@.len(),
            marcas@.len() <= i,
            forall|l: int|
                0 <= l < marcas@.len() ==> (#[trigger] marcas@[l]).titulo@ == g_marcas(
                    gd,
                    i as int,
                )[l].0 && marcas@[l].destino == g_marcas(gd, i as int)[l].1 && marcas@[l].nivel
                    == 0,
            num_marca as int == g_marcas(gd, i as int).len() + 1,
        decreases gd.len() - i,
    {
        proof {
            lema_inicio_mono(gd, i as int + 1, gd.len() as int);
        }
        let d = renumerar(&docs[i], sig);
        let ghost m_i = mapa_renum(ids_de(gd[i as int].objetos@), sig as int);
        proof {
            assert(vtab(d.objetos@) =~= g_tabla_renum(gd[i as int], g_inicio(gd, i as int)));
            assert(d.orden_paginas@ =~= g_orden_renum(gd[i as int], g_inicio(gd, i as int)));
        }
        let mut j: usize = 0;
        while j < d.objetos.len()
            invariant
                0 <= j <= d.objetos@.len(),
                vtab(todos@) == g_tabla_total(gd, i as int) + vtab(d.objetos@).subrange(
                    0,
                    j as int,
                ),
                todos@.len() == g_inicio(gd, i as int) - 1 + j,
            decreases d.objetos@.len() - j,
        {
            let ghost vant = todos@;
            let ghost antes = vtab(todos@);
            let copia = crate::objeto::clona_objeto(&d.objetos[j].1);
            todos.push((d.objetos[j].0, copia));
            j = j + 1;
            proof {
                let base = g_tabla_total(gd, i as int);
                let objetivo = base + vtab(d.objetos@).subrange(0, j as int);
                assert(todos@ == vant.push((d.objetos@[j - 1].0, copia)));
                assert(vtab(todos@).len() == objetivo.len());
                assert forall|l: int| 0 <= l < objetivo.len() implies vtab(todos@)[l]
                    == objetivo[l] by {
                    assert(vtab(todos@)[l] == (todos@[l].0, vo(todos@[l].1)));
                    if l < objetivo.len() - 1 {
                        assert(todos@[l] == vant[l]);
                        assert(vtab(todos@)[l] == antes[l]);
                        if l < base.len() {
                            assert(antes[l] == base[l]);
                            assert(objetivo[l] == base[l]);
                        } else {
                            assert(antes[l] == vtab(d.objetos@).subrange(0, j as int - 1)[l
                                - base.len()]);
                            assert(objetivo[l] == vtab(d.objetos@).subrange(0, j as int)[l
                                - base.len()]);
                        }
                    } else {
                        assert(todos@[l] == (d.objetos@[j - 1].0, copia));
                        assert(objetivo[l] == vtab(d.objetos@).subrange(0, j as int)[l
                            - base.len()]);
                        assert(objetivo[l] == vtab(d.objetos@)[j - 1]);
                    }
                }
                assert(vtab(todos@) =~= objetivo);
            }
        }
        let mut q: usize = 0;
        while q < d.orden_paginas.len()
            invariant
                0 <= q <= d.orden_paginas@.len(),
                orden@ == g_orden_total(gd, i as int) + d.orden_paginas@.subrange(0, q as int),
            decreases d.orden_paginas@.len() - q,
        {
            orden.push(d.orden_paginas[q]);
            q = q + 1;
            proof {
                assert(orden@ =~= g_orden_total(gd, i as int) + d.orden_paginas@.subrange(
                    0,
                    q as int,
                ));
            }
        }
        if d.orden_paginas.len() > 0 {
            marcas.push(
                Marcador { titulo: titulo_pagina(num_marca), destino: d.orden_paginas[0], nivel: 0 },
            );
            num_marca = num_marca + 1;
        }
        sig = d.max_id + 1;
        i = i + 1;
        proof {
            assert(vtab(d.objetos@).subrange(0, d.objetos@.len() as int) =~= vtab(d.objetos@));
            assert(d.orden_paginas@.subrange(0, d.orden_paginas@.len() as int) =~= d.orden_paginas@);
            assert(vtab(todos@) == g_tabla_total(gd, i as int));
            assert(orden@ == g_orden_total(gd, i as int));
        }
    }
    proof {
        assert(vtab(todos@) == g_todo(gd));
        assert(orden@ == g_ordenes(gd));
        assert(g_marcas(gd, gd.len() as int) == g_marcas_todas(gd));
    }

    let (cat, pag) = reconcilia(&todos);
    let (pid, pdic) = match pag {
        Some(x) => x,
        None => {
            return Err(ErrorUnion::SinRaizPaginas);
        },
    };
    let (cid, cdic) = match cat {
        Some(x) => x,
        None => {
            return Err(ErrorUnion::SinCatalogo);
        },
    };

    let total = orden.len();
    let mut pfin = pdic;
    let clave_count = String::from_str("Count");
    pone(&mut pfin, &clave_count, Objeto::Entero(total as i64));
    let mut kids: Vec<Objeto> = Vec::new();
    let mut z: usize = 0;
    while z < orden.len()
        invariant
            0 <= z <= orden@.len(),
            kids@.len() == z,
            forall|l: int| 0 <= l < z ==> vo(#[trigger] kids@[l]) == MObjeto::Referencia(orden@[l]),
        decreases orden@.len() - z,
    {
        kids.push(Objeto::Referencia(orden[z]));
        z = z + 1;
    }
    let obj_kids = Objeto::Arreglo(kids);
    proof {
        assert(vo(obj_kids)->Arreglo_0 =~= g_refs(orden@));
        assert(vo(obj_kids) == MObjeto::Arreglo(g_refs(g_ordenes(gd))));
    }
    let clave_kids = String::from_str("Kids");
    pone(&mut pfin, &clave_kids, obj_kids);
    proof {
        assert(vdic(pfin@) == g_paginas_final(gd));
    }

    let mut cfin = cdic;
    let clave_pages = String::from_str("Pages");
    pone(&mut cfin, &clave_pages, Objeto::Referencia(pid));
    let clave_outlines = String::from_str("Outlines");
    let cfin2 = quita(&cfin, &clave_outlines);
    proof {
        assert(vdic(cfin2@) == g_catalogo_final(gd));
    }

    let (tabla2, idx_cat) = arma_tabla(&todos, cid, &cfin2, pid, &pfin, &orden);
    proof {
        assert(vtab(tabla2@) == g_prefinal(gd));
        assert(ids_de(tabla2@) =~= g_ids_m(g_prefinal(gd)));
    }

    let mut cola0: Vec<(String, Objeto)> = Vec::new();
    let clave_root = String::from_str("Root");
    pone(&mut cola0, &clave_root, Objeto::Referencia(cid));
    proof {
        assert(vdic(cola0@) =~= seq![("Root"@, MObjeto::Referencia(cid))]);
    }

    let alto = tabla2.len() as u32;
    let doc0 = Documento {
        objetos: tabla2,
        cola: cola0,
        orden_paginas: orden,
        marcadores: marcas,
        max_id: alto,
        version: String::from_str("1.5"),
    };
    let mut dfin = renumerar(&doc0, 1);
    proof {
        assert(dfin.orden_paginas@ =~= g_orden_final(gd));
        assert(vdic(dfin.cola@) =~= seq![
            ("Root"@, MObjeto::Referencia(aplica(g_mapa_final(gd), cid))),
        ]);
    }

    proof {
        assert(vtab(dfin.objetos@) =~= g_tabla_contigua(gd));
    }
    repara_marcadores(&mut dfin);

    let nmarc = dfin.marcadores.len();
    let ghost t = g_tabla_contigua(gd);
    if nmarc > 0 {
        let base = dfin.objetos.len() as u32;
        proof {
            assert(vtab(dfin.objetos@) == t);
            assert(base as int == t.len());
        }
        let ix = match idx_cat {
            Some(ix) => ix,
            None => {
                proof {
                    let j = indice_testigo(todos@, cid);
                    assert(todos@[j].0 != cid);
                    assert(false);
                }
                0
            },
        };
        let nd2 = match &dfin.objetos[ix].1 {
            Objeto::Diccionario(dd) => clona_entradas(dd),
            _ => {
                proof {
                    assert(vtab(doc0.objetos@)[ix as int].0 == cid);
                    lema_tabla_final_catalogo(
                        g_todo(gd),
                        cid,
                        g_catalogo_final(gd),
                        pid,
                        g_paginas_final(gd),
                        g_ordenes(gd),
                        ix as int,
                    );
                    lema_reescribe_dic_entero(g_catalogo_final(gd), g_mapa_final(gd));
                    assert(vo(dfin.objetos@[ix as int].1) == t[ix as int].1);
                    assert(vo(dfin.objetos@[ix as int].1) is Diccionario);
                    lema_vo_variante_nombre(dfin.objetos@[ix as int].1);
                    assert(false);
                }
                Vec::new()
            },
        };
        let ghost gnd2 = nd2@;
        proof {
            assert(vo(dfin.objetos@[ix as int].1) == t[ix as int].1);
            assert(t[ix as int].1 is Diccionario);
            assert(vo(dfin.objetos@[ix as int].1)->Diccionario_0 =~= vdic(gnd2));
            assert(vdic(gnd2) == t[ix as int].1->Diccionario_0);
        }
        let mut nd3 = nd2;
        let raiz_esquema = IdObjeto { num: base + 1, gen: 0 };
        pone(&mut nd3, &clave_outlines, Objeto::Referencia(raiz_esquema));
        let id_ix = dfin.objetos[ix].0;
        let ghost vant = dfin.objetos@;
        dfin.objetos.set(ix, (id_ix, Objeto::Diccionario(nd3)));
        let ghost tupd = t.update(
            ix as int,
            (
                t[ix as int].0,
                MObjeto::Diccionario(
                    g_pone(
                        t[ix as int].1->Diccionario_0,
                        "Outlines"@,
                        MObjeto::Referencia(raiz_esquema),
                    ),
                ),
            ),
        );
        proof {
            assert(forall|l: int| 0 <= l < ix ==> doc0.objetos@[l].0 != cid);
            assert forall|l: int| 0 <= l < ix implies g_ids_m(g_prefinal(gd))[l] != cid by {
                assert(g_ids_m(g_prefinal(gd))[l] == vtab(doc0.objetos@)[l].0);
                assert(vtab(doc0.objetos@)[l].0 == doc0.objetos@[l].0);
            }
            assert(vtab(doc0.objetos@)[ix as int].0 == doc0.objetos@[ix as int].0);
            assert(g_ids_m(g_prefinal(gd))[ix as int] == cid);
            lema_indice_en(g_ids_m(g_prefinal(gd)), cid, ix as int);
            assert(vdic(nd3@) == g_pone(vdic(gnd2), "Outlines"@, MObjeto::Referencia(raiz_esquema)));
            assert(id_ix == t[ix as int].0);
            assert forall|j: int| 0 <= j < tupd.len() implies vtab(dfin.objetos@)[j]
                == tupd[j] by {
                assert(vtab(dfin.objetos@)[j] == (dfin.objetos@[j].0, vo(dfin.objetos@[j].1)));
                if j != ix {
                    assert(dfin.objetos@[j] == vant[j]);
                    assert(vtab(dfin.objetos@)[j] == vtab(vant)[j]);
                } else {
                    assert(vo(Objeto::Diccionario(nd3))->Diccionario_0 =~= vdic(nd3@));
                    assert(vo(Objeto::Diccionario(nd3)) == MObjeto::Diccionario(vdic(nd3@)));
                }
            }
            assert(vtab(dfin.objetos@) =~= tupd);
        }

        let mut esquema = construye_esquema(&dfin.marcadores, base);
        let ghost vant2 = dfin.objetos@;
        let ghost vesq = esquema@;
        dfin.objetos.append(&mut esquema);
        dfin.max_id = base + 1 + 2 * (nmarc as u32);
        proof {
            let ghost ms = vmarcas(dfin.marcadores@);
            let objetivo = tupd + g_esquema(ms, t.len() as int);
            assert forall|j: int| 0 <= j < objetivo.len() implies vtab(dfin.objetos@)[j]
                == objetivo[j] by {
                assert(vtab(dfin.objetos@)[j] == (dfin.objetos@[j].0, vo(dfin.objetos@[j].1)));
                if j < tupd.len() {
                    assert(dfin.objetos@[j] == vant2[j]);
                    assert(vtab(dfin.objetos@)[j] == vtab(vant2)[j]);
                } else {
                    assert(dfin.objetos@[j] == vesq[j - tupd.len()]);
                    assert(vtab(dfin.objetos@)[j] == vtab(vesq)[j - tupd.len()]);
                    assert(objetivo[j] == g_esquema(ms, t.len() as int)[j - tupd.len()]);
                }
            }
            assert(vtab(dfin.objetos@) =~= objetivo);
            assert(g_tabla_salida(gd, ms) == objetivo);
        }
    } else {
        proof {
            assert(vmarcas(dfin.marcadores@).len() == 0);
            assert(vtab(dfin.objetos@) == g_tabla_salida(gd, vmarcas(dfin.marcadores@)));
        }
    }

    Ok(Unido { documento: dfin, paginas: total as u32, marcadores: nmarc as u32 })
}

/// Ley: la union de un solo documento conserva su estructura de
/// paginas. El total de paginas es el suyo; el orden final, posicion a
/// posicion, es su propio orden de lectura bajo el doble renombrado
/// (el de la carga y el contiguo final), sin reordenar ni perder ni
/// anadir pagina alguna; y lleva a lo sumo un marcador: uno si tiene
/// alguna pagina, ninguno si no.
pub proof fn lema_documento_unico(d: Documento)
    ensures
        g_suma_paginas(seq![d], 1) == d.orden_paginas@.len(),
        g_ordenes(seq![d]) == g_orden_renum(d, 1),
        g_orden_final(seq![d]).len() == d.orden_paginas@.len(),
        forall|k: int|
            0 <= k < d.orden_paginas@.len() ==> #[trigger] g_orden_final(seq![d])[k] == aplica(
                g_mapa_final(seq![d]),
                aplica(mapa_renum(ids_de(d.objetos@), 1), d.orden_paginas@[k]),
            ),
        g_marcas_todas(seq![d]).len() == if d.orden_paginas@.len() == 0 {
            0int
        } else {
            1int
        },
{
    let s = seq![d];
    assert(s[0] == d);
    assert(g_suma_paginas(s, 0) == 0);
    assert(g_suma_paginas(s, 1) == g_suma_paginas(s, 0) + d.orden_paginas@.len());
    assert(g_inicio(s, 0) == 1);
    assert(g_orden_total(s, 0) =~= Seq::<IdObjeto>::empty());
    assert(g_orden_total(s, 1) =~= g_orden_total(s, 0) + g_orden_renum(d, 1));
    assert(g_orden_total(s, 1) =~= g_orden_renum(d, 1));
    assert(g_ordenes(s) == g_orden_total(s, 1));
    assert(g_marcas(s, 0).len() == 0);
    assert(g_marcas(s, 1) == if d.orden_paginas@.len() == 0 {
        g_marcas(s, 0)
    } else {
        g_marcas(s, 0).push((espec_titulo(1), g_orden_renum(d, g_inicio(s, 0))[0]))
    });
}

} // verus!
