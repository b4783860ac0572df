use vstd::prelude::*;

verus! {

/// Fecha de un boletin: dia, mes y anio ya validados.
#[derive(Clone, Copy, PartialEq, Eq, Structural, Debug)]
pub struct FechaBoe {
    pub dia: usize,
    pub mes: usize,
    pub anio: usize,
}

/// Fallo de la validacion de la fecha, en el orden en que se comprueba:
/// numero de partes, cifra ilegible, y cada campo fuera de rango.
#[derive(Clone, Copy, PartialEq, Eq, Structural, Debug)]
pub enum ErrorFecha {
    Partes,
    NoCifra,
    Dia,
    Mes,
    Anio,
}

/// Espacio en blanco que el recorte descarta: los blancos ASCII
/// (espacio y los controles del tabulador al retorno de carro) y el
/// marcador con que `byte_fecha` senala un blanco Unicode.
pub open spec fn es_blanco(c: u8) -> bool {
    c == 32 || (9 <= c && c <= 13) || c == 160
}

/// Espacio en blanco Unicode fuera de ASCII: los puntos de codigo del
/// conjunto White_Space por encima de 127, los mismos que descarta el
/// recorte de la biblioteca estandar.
pub open spec fn es_blanco_unicode(c: char) -> bool {
    let u = c as u32;
    u == 0x85 || u == 0xA0 || u == 0x1680 || (0x2000 <= u && u <= 0x200A) || u == 0x2028 || u
        == 0x2029 || u == 0x202F || u == 0x205F || u == 0x3000
}

/// Byte de un caracter para la validacion: su propio byte si es ASCII,
/// el marcador de blanco si es un espacio Unicode, y un marcador que ni
/// es blanco ni es digito para cualquier otro caracter, que por tanto
/// invalida la cifra en que caiga, igual que para la maquina.
pub open spec fn byte_fecha(c: char) -> u8 {
    if c as u32 <= 127 {
        c as u8
    } else if es_blanco_unicode(c) {
        160
    } else {
        255
    }
}

/// Bytes de una fecha, caracter a caracter.
pub open spec fn bytes_fecha(s: Seq<char>) -> Seq<u8> {
    s.map(|_i: int, c: char| byte_fecha(c))
}

/// Una cifra con signo opcional, como la lee la maquina: los digitos
/// tras un `+` inicial si lo hay.
pub open spec fn sin_signo(b: Seq<u8>) -> Seq<u8> {
    if b.len() >= 1 && b[0] == 43 {
        b.drop_first()
    } else {
        b
    }
}

/// Recorte por la izquierda: descarta los blancos iniciales.
pub open spec fn recorte_izq(s: Seq<u8>) -> Seq<u8>
    decreases s.len(),
{
    if s.len() > 0 && es_blanco(s[0]) {
        recorte_izq(s.drop_first())
    } else {
        s
    }
}

/// Recorte por la derecha: descarta los blancos finales.
pub open spec fn recorte_der(s: Seq<u8>) -> Seq<u8>
    decreases s.len(),
{
    if s.len() > 0 && es_blanco(s.last()) {
        recorte_der(s.drop_last())
    } else {
        s
    }
}

/// Recorte de blancos por ambos lados.
pub open spec fn recorte(s: Seq<u8>) -> Seq<u8> {
    recorte_der(recorte_izq(s))
}

/// Division por guiones: las partes entre cada `-`, con `acc` como
/// parte abierta.
pub open spec fn divide(s: Seq<u8>, acc: Seq<u8>) -> Seq<Seq<u8>>
    decreases s.len(),
{
    if s.len() == 0 {
        seq![acc]
    } else if s[0] == 45 {
        seq![acc] + divide(s.drop_first(), Seq::empty())
    } else {
        divide(s.drop_first(), acc.push(s[0]))
    }
}

pub open spec fn es_digito(c: u8) -> bool {
    48 <= c <= 57
}

/// Valor decimal de una sucesion de digitos.
pub open spec fn valor(s: Seq<u8>) -> int
    decreases s.len(),
{
    if s.len() == 0 {
        0
    } else {
        valor(s.drop_last()) * 10 + (s.last() - 48)
    }
}

/// Una cifra legible: no vacia, solo digitos, y con un valor que cabe
/// en la maquina.
pub open spec fn numero_valido(s: Seq<u8>) -> bool {
    s.len() > 0 && (forall|i: int| 0 <= i < s.len() ==> es_digito(#[trigger] s[i])) && valor(s)
        <= usize::MAX
}

/// Lo que la validacion responde a una fecha, caracter a caracter:
/// tres partes separadas por guiones tras recortar el espacio en
/// blanco, cada una una cifra con un `+` inicial opcional, el dia a lo
/// sumo 31, el mes a lo sumo 12 y el anio entre 1950 y 2050.
pub open spec fn espec_comprobar(s: Seq<char>) -> Result<FechaBoe, ErrorFecha> {
    let ps = divide(recorte(bytes_fecha(s)), Seq::empty());
    if ps.len() != 3 {
        Err(ErrorFecha::Partes)
    } else if !numero_valido(sin_signo(ps[0])) {
        Err(ErrorFecha::NoCifra)
    } else if valor(sin_signo(ps[0])) > 31 {
        Err(ErrorFecha::Dia)
    } else if !numero_valido(sin_signo(ps[1])) {
        Err(ErrorFecha::NoCifra)
    } else if valor(sin_signo(ps[1])) > 12 {
        Err(ErrorFecha::Mes)
    } else if !numero_valido(sin_signo(ps[2])) {
        Err(ErrorFecha::NoCifra)
    } else if valor(sin_signo(ps[2])) > 2050 || valor(sin_signo(ps[2])) < 1950 {
        Err(ErrorFecha::Anio)
    } else {
        Ok(
            FechaBoe {
                dia: valor(sin_signo(ps[0])) as usize,
                mes: valor(sin_signo(ps[1])) as usize,
                anio: valor(sin_signo(ps[2])) as usize,
            },
        )
    }
}

/// Con `i` blancos iniciales y el primer byte no blanco en `i`, el
/// recorte izquierdo es el resto desde `i`.
pub proof fn lema_recorte_izq(s: Seq<u8>, i: int)
    requires
        0 <= i <= s.len(),
        forall|l: int| 0 <= l < i ==> es_blanco(#[trigger] s[l]),
        i == s.len() || !es_blanco(s[i]),
    ensures
        recorte_izq(s) =~= s.subrange(i, s.len() as int),
    decreases i,
{
    if i == 0 {
        if s.len() > 0 && es_blanco(s[0]) {
        } else {
            assert(s.subrange(0, s.len() as int) =~= s);
        }
    } else {
        lema_recorte_izq(s.drop_first(), i - 1);
        assert(s.drop_first().subrange(i - 1, s.drop_first().len() as int) =~= s.subrange(
            i,
            s.len() as int,
        ));
    }
}

/// Con blancos desde `f` hasta el final y el byte anterior a `f` no
/// blanco, el recorte derecho es el prefijo hasta `f`.
pub proof fn lema_recorte_der(s: Seq<u8>, f: int)
    requires
        0 <= f <= s.len(),
        forall|l: int| f <= l < s.len() ==> es_blanco(#[trigger] s[l]),
        f == 0 || !es_blanco(s[f - 1]),
    ensures
        recorte_der(s) =~= s.subrange(0, f),
    decreases s.len() - f,
{
    if f == s.len() {
        if s.len() > 0 && es_blanco(s.last()) {
        } else {
            assert(s.subrange(0, s.len() as int) =~= s);
        }
    } else {
        lema_recorte_der(s.drop_last(), f);
        assert(s.drop_last().subrange(0, f) =~= s.subrange(0, f));
    }
}

/// El valor no mengua al anadir digitos por la derecha.
pub proof fn lema_valor_prefijo(s: Seq<u8>, i: int)
    requires
        0 <= i <= s.len(),
        forall|l: int| 0 <= l < s.len() ==> es_digito(#[trigger] s[l]),
    ensures
        0 <= valor(s.subrange(0, i)),
        valor(s.subrange(0, i)) <= valor(s),
    decreases s.len() - i,
{
    if i == s.len() {
        assert(s.subrange(0, i) =~= s);
        lema_valor_no_negativo(s);
    } else {
        lema_valor_prefijo(s, i + 1);
        let p1 = s.subrange(0, i + 1);
        assert(p1.drop_last() =~= s.subrange(0, i));
        lema_valor_no_negativo(s.subrange(0, i));
    }
}

/// El valor de una sucesion de digitos nunca es negativo.
pub proof fn lema_valor_no_negativo(s: Seq<u8>)
    requires
        forall|l: int| 0 <= l < s.len() ==> es_digito(#[trigger] s[l]),
    ensures
        valor(s) >= 0,
    decreases s.len(),
{
    if s.len() > 0 {
        lema_valor_no_negativo(s.drop_last());
    }
}

/// Lee una cifra decimal. Responde su valor, o nada si hay un byte que
/// no es digito, la parte esta vacia, o el valor no cabe.
pub fn parsea(parte: &Vec<u8>) -> (r: Option<usize>)
    ensures
        match r {
            Some(v) => numero_valido(parte@) && v == valor(parte@),
            None => !numero_valido(parte@),
        },
{
    if parte.len() == 0 {
        return None;
    }
    let mut acc: usize = 0;
    let mut i: usize = 0;
    while i < parte.len()
        invariant
            0 <= i <= parte@.len(),
            forall|l: int| 0 <= l < i ==> es_digito(#[trigger] parte@[l]),
            acc == valor(parte@.subrange(0, i as int)),
        decreases parte@.len() - i,
    {
        let c = parte[i];
        if c < 48 || c > 57 {
            return None;
        }
        let d = (c - 48) as usize;
        if acc > (usize::MAX - d) / 10 {
            proof {
                assert(acc * 10 + d > usize::MAX) by (nonlinear_arith)
                    requires
                        acc > (usize::MAX - d) / 10,
                        0 <= d < 10,
                ;
                if forall|l: int| 0 <= l < parte@.len() ==> es_digito(#[trigger] parte@[l]) {
                    lema_valor_prefijo(parte@, i as int + 1);
                    assert(parte@.subrange(0, i as int + 1).drop_last() =~= parte@.subrange(
                        0,
                        i as int,
                    ));
                    assert(parte@.subrange(0, i as int + 1).last() == parte@[i as int]);
                    assert(valor(parte@.subrange(0, i as int + 1)) == acc * 10 + d);
                }
            }
            return None;
        }
        let acc2 = acc * 10 + d;
        proof {
            assert(parte@.subrange(0, i as int + 1).drop_last() =~= parte@.subrange(0, i as int));
            assert(parte@.subrange(0, i as int + 1).last() == parte@[i as int]);
        }
        acc = acc2;
        i = i + 1;
    }
    proof {
        assert(parte@.subrange(0, parte@.len() as int) =~= parte@);
    }
    Some(acc)
}

/// Bytes de una fecha para la validacion, caracter a caracter.
fn mapa_fecha(fecha: &str) -> (r: Vec<u8>)
    ensures
        r@ == bytes_fecha(fecha@),
{
    let mut fuera: Vec<u8> = Vec::new();
    let mut i: usize = 0;
    let n = fecha.unicode_len();
    while i < n
        invariant
            0 <= i <= fecha@.len(),
            n == fecha@.len(),
            fuera@.len() == i,
            forall|l: int| 0 <= l < i ==> fuera@[l] == byte_fecha(fecha@[l]),
        decreases fecha@.len() - i,
    {
        let c = fecha.get_char(i);
        let u = c as u32;
        if u <= 127 {
            fuera.push(c as u8);
        } else if u == 0x85 || u == 0xA0 || u == 0x1680 || (0x2000 <= u && u <= 0x200A) || u
            == 0x2028 || u == 0x2029 || u == 0x202F || u == 0x205F || u == 0x3000 {
            fuera.push(160u8);
        } else {
            fuera.push(255u8);
        }
        i = i + 1;
    }
    proof {
        assert(fuera@ =~= bytes_fecha(fecha@));
    }
    fuera
}

/// Lee una cifra con un `+` inicial opcional, como la maquina.
pub fn parsea_con_signo(parte: &Vec<u8>) -> (r: Option<usize>)
    ensures
        match r {
            Some(v) => numero_valido(sin_signo(parte@)) && v == valor(sin_signo(parte@)),
            None => !numero_valido(sin_signo(parte@)),
        },
{
    if parte.len() >= 1 && parte[0] == 43 {
        let mut resto: Vec<u8> = Vec::new();
        let mut i: usize = 1;
        proof {
            assert(resto@ =~= parte@.subrange(1, 1));
        }
        while i < parte.len()
            invariant
                1 <= i <= parte@.len(),
                resto@ == parte@.subrange(1, i as int),
            decreases parte@.len() - i,
        {
            resto.push(parte[i]);
            i = i + 1;
            proof {
                assert(resto@ =~= parte@.subrange(1, i as int));
            }
        }
        proof {
            assert(resto@ =~= sin_signo(parte@));
        }
        parsea(&resto)
    } else {
        proof {
            assert(sin_signo(parte@) == parte@);
        }
        parsea(parte)
    }
}

/// Validador del formato de la fecha `DD-MM-AAAA`: recorta el espacio
/// en blanco, divide por guiones y exige tres cifras en rango. No
/// aborta: responde la fecha o el primer fallo encontrado.
pub fn comprobar_formato(fecha: &str) -> (r: Result<FechaBoe, ErrorFecha>)
    ensures
        r == espec_comprobar(fecha@),
{
    let bytes = mapa_fecha(fecha);
    let ghost s = bytes_fecha(fecha@);

    let mut ini: usize = 0;
    while ini < bytes.len() && (bytes[ini] == 32 || (bytes[ini] >= 9 && bytes[ini] <= 13)
        || bytes[ini] == 160)
        invariant
            0 <= ini <= s.len(),
            forall|l: int| 0 <= l < ini ==> es_blanco(#[trigger] s[l]),
        decreases s.len() - ini,
    {
        ini = ini + 1;
    }
    let mut fin: usize = bytes.len();
    while fin > ini && (bytes[fin - 1] == 32 || (bytes[fin - 1] >= 9 && bytes[fin - 1] <= 13)
        || bytes[fin - 1] == 160)
        invariant
            ini <= fin <= s.len(),
            forall|l: int| fin <= l < s.len() ==> es_blanco(#[trigger] s[l]),
        decreases fin,
    {
        fin = fin - 1;
    }
    proof {
        lema_recorte_izq(s, ini as int);
        let si = s.subrange(ini as int, s.len() as int);
        if fin == ini {
            lema_recorte_der(si, 0);
        } else {
            lema_recorte_der(si, fin as int - ini as int);
        }
        assert(si.subrange(0, fin as int - ini as int) =~= s.subrange(ini as int, fin as int));
        assert(recorte(s) == s.subrange(ini as int, fin as int));
    }

    let mut partes: Vec<Vec<u8>> = Vec::new();
    let mut acc: Vec<u8> = Vec::new();
    let mut i: usize = ini;
    let ghost rec = recorte(s);
    while i < fin
        invariant
            ini <= i <= fin <= s.len(),
            rec == s.subrange(ini as int, fin as int),
            divide(rec, Seq::empty()) == vistas(partes@) + divide(
                s.subrange(i as int, fin as int),
                acc@,
            ),
        decreases fin - i,
    {
        let ghost resto = s.subrange(i as int, fin as int);
        let c = bytes[i];
        proof {
            assert(resto[0] == s[i as int]);
            assert(resto.drop_first() =~= s.subrange(i as int + 1, fin as int));
        }
        if c == 45 {
            partes.push(acc);
            acc = Vec::new();
            proof {
                assert(vistas(partes@) =~= vistas(partes@.drop_last()) + seq![
                    partes@.last()@,
                ]);
                assert(vistas(partes@.drop_last()) + seq![partes@.last()@] + divide(
                    s.subrange(i as int + 1, fin as int),
                    Seq::empty(),
                ) =~= vistas(partes@) + divide(s.subrange(i as int + 1, fin as int), Seq::empty()));
            }
        } else {
            acc.push(c);
        }
        i = i + 1;
    }
    partes.push(acc);
    proof {
        assert(s.subrange(fin as int, fin as int) =~= Seq::<u8>::empty());
        assert(vistas(partes@) =~= vistas(partes@.drop_last()) + seq![partes@.last()@]);
        assert(divide(rec, Seq::empty()) == vistas(partes@));
    }

    if partes.len() != 3 {
        return Err(ErrorFecha::Partes);
    }
    proof {
        assert(vistas(partes@)[0] == partes@[0]@);
        assert(vistas(partes@)[1] == partes@[1]@);
        assert(vistas(partes@)[2] == partes@[2]@);
    }
    let dia = match parsea_con_signo(&partes[0]) {
        Some(v) => v,
        None => {
            return Err(ErrorFecha::NoCifra);
        },
    };
    if dia > 31 {
        return Err(ErrorFecha::Dia);
    }
    let mes = match parsea_con_signo(&partes[1]) {
        Some(v) => v,
        None => {
            return Err(ErrorFecha::NoCifra);
        },
    };
    if mes > 12 {
        return Err(ErrorFecha::Mes);
    }
    let anio = match parsea_con_signo(&partes[2]) {
        Some(v) => v,
        None => {
            return Err(ErrorFecha::NoCifra);
        },
    };
    if anio > 2050 || anio < 1950 {
        return Err(ErrorFecha::Anio);
    }
    Ok(FechaBoe { dia, mes, anio })
}

/// Vistas de una lista de partes.
pub open spec fn vistas(ps: Seq<Vec<u8>>) -> Seq<Seq<u8>> {
    Seq::new(ps.len(), |k: int| ps[k]@)
}

} // verus!
